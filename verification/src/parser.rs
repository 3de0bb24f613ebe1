//! Streaming event parser over GDS records.
//!
//! Wraps a [`RecordIter`] and yields one [`GdsEvent`] per logical unit: the library header,
//! a structure header, a complete element, a property, the end of a structure, the end of
//! the library. Strings borrow from the input.
pub use crate::events::{
    Aref, Boundary, Element, ElementView, EventView, GdsBox, GdsEvent, LibraryBegin, Node, Path,
    Property, Sref, Strans, StransView, StructureBegin, Text, XyCoords, opt_bytes, opt_real_bytes,
    opt_strans_view,
};
use crate::float::GdsEightByteReal;
use crate::reader::{
    lemma_records_step, read_view, spec_records, spec_read_record, BodyView, RecView, Record, RecordBody, RecordError, RecordErrorView,
    RecordIter,
};
use crate::types::RecordType;
use vstd::prelude::*;
use vstd::string::StringSliceAdditionalSpecFns;

verus! {

/// Errors met while parsing a GDS stream.
#[derive(Debug, PartialEq, Eq)]
pub enum ParseError {
    /// A record that the grammar does not allow here.
    UnexpectedRecord { found: RecordType, context: &'static str },
    /// The records ended where one more was required.
    UnexpectedEof { context: &'static str },
    /// A record whose body is not of the kind its type calls for.
    WrongBodyType { record_type: RecordType, expected: &'static str },
    /// A record could not be read.
    Body(RecordError),
}

/// Mathematical value of a parse error.
pub enum ParseErrorView {
    UnexpectedRecord { found: RecordType, context: &'static str },
    UnexpectedEof { context: &'static str },
    WrongBodyType { record_type: RecordType, expected: &'static str },
    Body(RecordErrorView),
}

impl View for ParseError {
    type V = ParseErrorView;

    open spec fn view(&self) -> ParseErrorView {
        match self {
            ParseError::UnexpectedRecord { found, context } => ParseErrorView::UnexpectedRecord {
                found: *found,
                context: *context,
            },
            ParseError::UnexpectedEof { context } => ParseErrorView::UnexpectedEof {
                context: *context,
            },
            ParseError::WrongBodyType { record_type, expected } => ParseErrorView::WrongBodyType {
                record_type: *record_type,
                expected: *expected,
            },
            ParseError::Body(e) => ParseErrorView::Body(e@),
        }
    }
}

/// The records left to parse.
pub type RecordStream = Seq<Result<RecView, RecordErrorView>>;

/// Where the parser stands in the grammar.
#[derive(Debug, Clone, Copy, PartialEq, Eq, Structural)]
pub enum ParseState {
    /// Before the library header.
    Start,
    /// Between structures.
    Library,
    /// Inside a structure, between elements.
    Structure,
    /// After an element with properties, before its ENDEL.
    Properties,
    /// After the library's end or an error.
    Done,
}

// ------------------------------------------------------------------------------------------
// Record bodies
// ------------------------------------------------------------------------------------------

/// The error for a body that is not of the expected kind.
pub open spec fn wrong_body(record_type: RecordType, expected: &'static str) -> ParseErrorView {
    ParseErrorView::WrongBodyType { record_type, expected }
}

/// First value of a two-byte integer body.
pub open spec fn body_i16(b: BodyView, t: RecordType) -> Result<i16, ParseErrorView> {
    match b {
        BodyView::TwoByteSignedInt(v) => if v.len() > 0 {
            Ok(v[0])
        } else {
            Err(wrong_body(t, "TwoByteSignedInt with ≥1 element"))
        },
        _ => Err(wrong_body(t, "TwoByteSignedInt with ≥1 element")),
    }
}

/// First value of a four-byte integer body.
pub open spec fn body_i32(b: BodyView, t: RecordType) -> Result<i32, ParseErrorView> {
    match b {
        BodyView::FourByteSignedInt(v) => if v.len() > 0 {
            Ok(v[0])
        } else {
            Err(wrong_body(t, "FourByteSignedInt with ≥1 element"))
        },
        _ => Err(wrong_body(t, "FourByteSignedInt with ≥1 element")),
    }
}

/// First word of a bit array body.
pub open spec fn body_u16(b: BodyView, t: RecordType) -> Result<u16, ParseErrorView> {
    match b {
        BodyView::BitArray(v) => if v.len() > 0 {
            Ok(v[0])
        } else {
            Err(wrong_body(t, "BitArray with ≥1 element"))
        },
        _ => Err(wrong_body(t, "BitArray with ≥1 element")),
    }
}

/// First real of an eight-byte real body, as its raw bytes.
pub open spec fn body_real(b: BodyView, t: RecordType) -> Result<Seq<u8>, ParseErrorView> {
    match b {
        BodyView::EightByteReal(v) => if v.len() > 0 {
            Ok(v[0])
        } else {
            Err(wrong_body(t, "EightByteReal with ≥1 element"))
        },
        _ => Err(wrong_body(t, "EightByteReal with ≥1 element")),
    }
}

/// First two reals of an eight-byte real body, as their raw bytes.
pub open spec fn body_two_reals(b: BodyView, t: RecordType) -> Result<
    (Seq<u8>, Seq<u8>),
    ParseErrorView,
> {
    match b {
        BodyView::EightByteReal(v) => if v.len() >= 2 {
            Ok((v[0], v[1]))
        } else {
            Err(wrong_body(t, "EightByteReal with ≥2 elements"))
        },
        _ => Err(wrong_body(t, "EightByteReal with ≥2 elements")),
    }
}

/// All values of a two-byte integer body.
pub open spec fn body_i16s(b: BodyView, t: RecordType) -> Result<Seq<i16>, ParseErrorView> {
    match b {
        BodyView::TwoByteSignedInt(v) => Ok(v),
        _ => Err(wrong_body(t, "TwoByteSignedInt")),
    }
}

/// All values of a four-byte integer body.
pub open spec fn body_i32s(b: BodyView, t: RecordType) -> Result<Seq<i32>, ParseErrorView> {
    match b {
        BodyView::FourByteSignedInt(v) => Ok(v),
        _ => Err(wrong_body(t, "FourByteSignedInt")),
    }
}

/// The string of a string body, as its bytes.
pub open spec fn body_str(b: BodyView, t: RecordType) -> Result<Seq<u8>, ParseErrorView> {
    match b {
        BodyView::AsciiString(s) => Ok(s),
        _ => Err(wrong_body(t, "AsciiString")),
    }
}

/// A result with its error taken by its view.
pub open spec fn err_view<T>(r: Result<T, ParseError>) -> Result<T, ParseErrorView> {
    match r {
        Ok(v) => Ok(v),
        Err(e) => Err(e@),
    }
}

/// A real result taken as its raw bytes, its error by its view.
pub open spec fn real_view(r: Result<GdsEightByteReal, ParseError>) -> Result<Seq<u8>, ParseErrorView> {
    match r {
        Ok(v) => Ok(v.0@),
        Err(e) => Err(e@),
    }
}

/// First value of a two-byte integer body; `WrongBodyType` for any other body.
pub fn extract_i16(body: &RecordBody, record_type: RecordType) -> (r: Result<i16, ParseError>)
    ensures
        err_view(r) == body_i16(body@, record_type),
{
    match body {
        RecordBody::TwoByteSignedInt(s) if s.len() > 0 => Ok(s[0]),
        _ => Err(
            ParseError::WrongBodyType {
                record_type,
                expected: "TwoByteSignedInt with ≥1 element",
            },
        ),
    }
}

/// First value of a four-byte integer body; `WrongBodyType` for any other body.
pub fn extract_i32(body: &RecordBody, record_type: RecordType) -> (r: Result<i32, ParseError>)
    ensures
        err_view(r) == body_i32(body@, record_type),
{
    match body {
        RecordBody::FourByteSignedInt(s) if s.len() > 0 => Ok(s[0]),
        _ => Err(
            ParseError::WrongBodyType {
                record_type,
                expected: "FourByteSignedInt with ≥1 element",
            },
        ),
    }
}

/// First word of a bit array body; `WrongBodyType` for any other body.
pub fn extract_u16(body: &RecordBody, record_type: RecordType) -> (r: Result<u16, ParseError>)
    ensures
        err_view(r) == body_u16(body@, record_type),
{
    match body {
        RecordBody::BitArray(s) if s.len() > 0 => Ok(s[0]),
        _ => Err(
            ParseError::WrongBodyType { record_type, expected: "BitArray with ≥1 element" },
        ),
    }
}

/// First real of an eight-byte real body; `WrongBodyType` for any other body.
pub fn extract_real(body: &RecordBody, record_type: RecordType) -> (r: Result<
    GdsEightByteReal,
    ParseError,
>)
    ensures
        real_view(r) == body_real(body@, record_type),
{
    match body {
        RecordBody::EightByteReal(s) if s.len() > 0 => Ok(s[0]),
        _ => Err(
            ParseError::WrongBodyType { record_type, expected: "EightByteReal with ≥1 element" },
        ),
    }
}

/// First two reals of an eight-byte real body; `WrongBodyType` for any other body.
pub fn extract_two_reals(body: &RecordBody, record_type: RecordType) -> (r: Result<
    (GdsEightByteReal, GdsEightByteReal),
    ParseError,
>)
    ensures
        match r {
            Ok((a, b)) => body_two_reals(body@, record_type) == Ok::<_, ParseErrorView>(
                (a.0@, b.0@),
            ),
            Err(e) => body_two_reals(body@, record_type) == Err::<(Seq<u8>, Seq<u8>), _>(e@),
        },
{
    match body {
        RecordBody::EightByteReal(s) if s.len() >= 2 => Ok((s[0], s[1])),
        _ => Err(
            ParseError::WrongBodyType { record_type, expected: "EightByteReal with ≥2 elements" },
        ),
    }
}

/// All values of a two-byte integer body; `WrongBodyType` for any other body.
pub fn extract_i16_slice(body: RecordBody, record_type: RecordType) -> (r: Result<
    Vec<i16>,
    ParseError,
>)
    ensures
        match r {
            Ok(v) => body_i16s(body@, record_type) == Ok::<_, ParseErrorView>(v@),
            Err(e) => body_i16s(body@, record_type) == Err::<Seq<i16>, _>(e@),
        },
{
    match body {
        RecordBody::TwoByteSignedInt(s) => Ok(s),
        _ => Err(ParseError::WrongBodyType { record_type, expected: "TwoByteSignedInt" }),
    }
}

/// All values of a four-byte integer body; `WrongBodyType` for any other body.
pub fn extract_i32_slice(body: RecordBody, record_type: RecordType) -> (r: Result<
    Vec<i32>,
    ParseError,
>)
    ensures
        match r {
            Ok(v) => body_i32s(body@, record_type) == Ok::<_, ParseErrorView>(v@),
            Err(e) => body_i32s(body@, record_type) == Err::<Seq<i32>, _>(e@),
        },
{
    match body {
        RecordBody::FourByteSignedInt(s) => Ok(s),
        _ => Err(ParseError::WrongBodyType { record_type, expected: "FourByteSignedInt" }),
    }
}

/// The string of a string body; `WrongBodyType` for any other body.
pub fn extract_str<'a>(body: &RecordBody<'a>, record_type: RecordType) -> (r: Result<
    &'a str,
    ParseError,
>)
    ensures
        match r {
            Ok(s) => body_str(body@, record_type) == Ok::<_, ParseErrorView>(s.spec_bytes()),
            Err(e) => body_str(body@, record_type) == Err::<Seq<u8>, _>(e@),
        },
{
    match body {
        RecordBody::AsciiString(s) => Ok(*s),
        _ => Err(ParseError::WrongBodyType { record_type, expected: "AsciiString" }),
    }
}

// ------------------------------------------------------------------------------------------
// The grammar over the record stream
// ------------------------------------------------------------------------------------------

/// Outcome of a parsing step: a value and the records left after it, or an error.
pub type Parsed<T> = Result<(T, RecordStream), ParseErrorView>;

/// The next record, required.
pub open spec fn sp_next(s: RecordStream, context: &'static str) -> Parsed<RecView> {
    if s.len() == 0 {
        Err(ParseErrorView::UnexpectedEof { context })
    } else {
        match s[0] {
            Ok(r) => Ok((r, s.drop_first())),
            Err(e) => Err(ParseErrorView::Body(e)),
        }
    }
}

/// The next record, required to be of type `t`.
pub open spec fn sp_expect(s: RecordStream, t: RecordType, context: &'static str) -> Parsed<
    RecView,
> {
    match sp_next(s, context) {
        Err(e) => Err(e),
        Ok((r, rest)) => if r.header.record_type == t {
            Ok((r, rest))
        } else {
            Err(ParseErrorView::UnexpectedRecord { found: r.header.record_type, context })
        },
    }
}

/// The next record if it is of type `t`; otherwise nothing is consumed.
pub open spec fn sp_try(s: RecordStream, t: RecordType) -> Parsed<Option<RecView>> {
    if s.len() == 0 {
        Ok((None, s))
    } else {
        match s[0] {
            Err(e) => Err(ParseErrorView::Body(e)),
            Ok(r) => if r.header.record_type == t {
                Ok((Some(r), s.drop_first()))
            } else {
                Ok((None, s))
            },
        }
    }
}

/// A required record of type `t` with a two-byte integer.
pub open spec fn sp_req_i16(s: RecordStream, t: RecordType, context: &'static str) -> Parsed<i16> {
    match sp_expect(s, t, context) {
        Err(e) => Err(e),
        Ok((r, rest)) => match body_i16(r.body, t) {
            Ok(v) => Ok((v, rest)),
            Err(e) => Err(e),
        },
    }
}

/// A required record of type `t` with a string.
pub open spec fn sp_req_str(s: RecordStream, t: RecordType, context: &'static str) -> Parsed<
    Seq<u8>,
> {
    match sp_expect(s, t, context) {
        Err(e) => Err(e),
        Ok((r, rest)) => match body_str(r.body, t) {
            Ok(v) => Ok((v, rest)),
            Err(e) => Err(e),
        },
    }
}

/// An optional record of type `t` with a two-byte integer.
pub open spec fn sp_opt_i16(s: RecordStream, t: RecordType) -> Parsed<Option<i16>> {
    match sp_try(s, t) {
        Err(e) => Err(e),
        Ok((None, rest)) => Ok((None, rest)),
        Ok((Some(r), rest)) => match body_i16(r.body, t) {
            Ok(v) => Ok((Some(v), rest)),
            Err(e) => Err(e),
        },
    }
}

/// An optional record of type `t` with a four-byte integer.
pub open spec fn sp_opt_i32(s: RecordStream, t: RecordType) -> Parsed<Option<i32>> {
    match sp_try(s, t) {
        Err(e) => Err(e),
        Ok((None, rest)) => Ok((None, rest)),
        Ok((Some(r), rest)) => match body_i32(r.body, t) {
            Ok(v) => Ok((Some(v), rest)),
            Err(e) => Err(e),
        },
    }
}

/// An optional record of type `t` with a bit array.
pub open spec fn sp_opt_u16(s: RecordStream, t: RecordType) -> Parsed<Option<u16>> {
    match sp_try(s, t) {
        Err(e) => Err(e),
        Ok((None, rest)) => Ok((None, rest)),
        Ok((Some(r), rest)) => match body_u16(r.body, t) {
            Ok(v) => Ok((Some(v), rest)),
            Err(e) => Err(e),
        },
    }
}

/// An optional record of type `t` with an eight-byte real.
pub open spec fn sp_opt_real(s: RecordStream, t: RecordType) -> Parsed<Option<Seq<u8>>> {
    match sp_try(s, t) {
        Err(e) => Err(e),
        Ok((None, rest)) => Ok((None, rest)),
        Ok((Some(r), rest)) => match body_real(r.body, t) {
            Ok(v) => Ok((Some(v), rest)),
            Err(e) => Err(e),
        },
    }
}

/// Optional ELFLAGS then optional PLEX.
pub open spec fn sp_elflags_plex(s: RecordStream) -> Parsed<(Option<u16>, Option<i32>)> {
    match sp_opt_u16(s, RecordType::Elflags) {
        Err(e) => Err(e),
        Ok((elflags, s1)) => match sp_opt_i32(s1, RecordType::Plex) {
            Err(e) => Err(e),
            Ok((plex, s2)) => Ok(((elflags, plex), s2)),
        },
    }
}

/// Transformation of STRANS flags and optional MAG and ANGLE.
pub open spec fn strans_of(flags: u16, mag: Option<Seq<u8>>, angle: Option<Seq<u8>>) -> StransView {
    StransView {
        reflection: flags >= 0x8000,
        abs_mag: (flags / 4) % 2 == 1,
        abs_angle: (flags / 2) % 2 == 1,
        mag,
        angle,
    }
}

/// Bits of a STRANS word as read: bit 15 (0x8000) is the reflection about the X axis,
/// bit 2 (0x0004) absolute magnification and bit 1 (0x0002) absolute angle; the other bits
/// are ignored, and MAG and ANGLE are kept as read.
pub proof fn lemma_strans_bits(f: u16, mag: Option<Seq<u8>>, angle: Option<Seq<u8>>)
    ensures
        strans_of(f, mag, angle).reflection == (f & 0x8000 != 0),
        strans_of(f, mag, angle).abs_mag == (f & 0x0004 != 0),
        strans_of(f, mag, angle).abs_angle == (f & 0x0002 != 0),
        strans_of(f, mag, angle).mag == mag,
        strans_of(f, mag, angle).angle == angle,
{
    assert((f & 0x8000 != 0) == (f >= 0x8000)) by (bit_vector);
    assert((f & 0x0004 != 0) == ((f / 4) % 2 == 1)) by (bit_vector);
    assert((f & 0x0002 != 0) == ((f / 2) % 2 == 1)) by (bit_vector);
}

/// Optional STRANS, with optional MAG and ANGLE after it.
pub open spec fn sp_strans(s: RecordStream) -> Parsed<Option<StransView>> {
    match sp_try(s, RecordType::Strans) {
        Err(e) => Err(e),
        Ok((None, rest)) => Ok((None, rest)),
        Ok((Some(r), s1)) => match body_u16(r.body, RecordType::Strans) {
            Err(e) => Err(e),
            Ok(flags) => match sp_opt_real(s1, RecordType::Mag) {
                Err(e) => Err(e),
                Ok((mag, s2)) => match sp_opt_real(s2, RecordType::Angle) {
                    Err(e) => Err(e),
                    Ok((angle, s3)) => Ok((Some(strans_of(flags, mag, angle)), s3)),
                },
            },
        },
    }
}

/// Further XY records, their coordinates appended to `acc`.
pub open spec fn sp_more_xy(s: RecordStream, acc: Seq<i32>) -> Parsed<Seq<i32>>
    decreases s.len(),
{
    if s.len() == 0 {
        Ok((acc, s))
    } else {
        match s[0] {
            Err(e) => Err(ParseErrorView::Body(e)),
            Ok(r) => if r.header.record_type == RecordType::Xy {
                match body_i32s(r.body, RecordType::Xy) {
                    Err(e) => Err(e),
                    Ok(v) => sp_more_xy(s.drop_first(), acc + v),
                }
            } else {
                Ok((acc, s))
            },
        }
    }
}

/// A required XY record, and the coordinates of the XY records that directly follow it.
pub open spec fn sp_xy(s: RecordStream, context: &'static str) -> Parsed<Seq<i32>> {
    match sp_expect(s, RecordType::Xy, context) {
        Err(e) => Err(e),
        Ok((r, rest)) => match body_i32s(r.body, RecordType::Xy) {
            Err(e) => Err(e),
            Ok(v) => sp_more_xy(rest, v),
        },
    }
}

/// End of an element: ENDEL (back to the structure), or PROPATTR, which is left unread
/// (on to the element's properties).
pub open spec fn sp_finish(s: RecordStream) -> Result<(RecordStream, ParseState), ParseErrorView> {
    match sp_next(s, "element end") {
        Err(e) => Err(e),
        Ok((r, rest)) => if r.header.record_type == RecordType::Endel {
            Ok((rest, ParseState::Structure))
        } else if r.header.record_type == RecordType::Propattr {
            Ok((s, ParseState::Properties))
        } else {
            Err(
                ParseErrorView::UnexpectedRecord {
                    found: r.header.record_type,
                    context: "element end (expected ENDEL or PROPATTR)",
                },
            )
        },
    }
}

/// Outcome of a step that yields an event: the event, the records left, the next state.
pub type Stepped = Result<(EventView, RecordStream, ParseState), ParseErrorView>;

/// An element, once its opening record is read, up to its end.
pub open spec fn sp_element_end(el: ElementView, s: RecordStream) -> Stepped {
    match sp_finish(s) {
        Err(e) => Err(e),
        Ok((rest, st)) => Ok((EventView::Element(el), rest, st)),
    }
}

/// The COLROW record of an array reference: columns and rows.
pub open spec fn sp_colrow(s: RecordStream) -> Parsed<(i16, i16)> {
    match sp_expect(s, RecordType::Colrow, "Aref") {
        Err(e) => Err(e),
        Ok((r, rest)) => match body_i16s(r.body, RecordType::Colrow) {
            Err(e) => Err(e),
            Ok(v) => if v.len() < 2 {
                Err(wrong_body(RecordType::Colrow, "TwoByteSignedInt with ≥2 elements"))
            } else {
                Ok(((v[0], v[1]), rest))
            },
        },
    }
}

/// A boundary, once its BOUNDARY record is read.
#[verifier::opaque]
pub open spec fn sp_boundary(s: RecordStream) -> Stepped {
    match sp_elflags_plex(s) {
        Err(e) => Err(e),
        Ok(((elflags, plex), s1)) => 
        match sp_req_i16(s1, RecordType::Layer, "Boundary") {
            Err(e) => Err(e),
            Ok((layer, s2)) => 
            match sp_req_i16(s2, RecordType::Datatype, "Boundary") {
                Err(e) => Err(e),
                Ok((datatype, s3)) => 
                match sp_xy(s3, "Boundary") {
                    Err(e) => Err(e),
                    Ok((xy, s4)) => 
                    sp_element_end(ElementView::Boundary { elflags, plex, layer, datatype, xy }, s4)
                },
            },
        },
    }
}

/// A path, once its PATH record is read.
#[verifier::opaque]
pub open spec fn sp_path(s: RecordStream) -> Stepped {
    match sp_elflags_plex(s) {
        Err(e) => Err(e),
        Ok(((elflags, plex), s1)) => 
        match sp_req_i16(s1, RecordType::Layer, "Path") {
            Err(e) => Err(e),
            Ok((layer, s2)) => 
            match sp_req_i16(s2, RecordType::Datatype, "Path") {
                Err(e) => Err(e),
                Ok((datatype, s3)) => 
                match sp_opt_i16(s3, RecordType::Pathtype) {
                    Err(e) => Err(e),
                    Ok((pathtype, s4)) => 
                    match sp_opt_i32(s4, RecordType::Width) {
                        Err(e) => Err(e),
                        Ok((width, s5)) => 
                        match sp_opt_i32(s5, RecordType::BgnExtn) {
                            Err(e) => Err(e),
                            Ok((bgn_extn, s6)) => 
                            match sp_opt_i32(s6, RecordType::EndExtn) {
                                Err(e) => Err(e),
                                Ok((end_extn, s7)) => 
                                match sp_xy(s7, "Path") {
                                    Err(e) => Err(e),
                                    Ok((xy, s8)) => 
                                    sp_element_end(ElementView::Path { elflags, plex, layer, datatype, pathtype, width, bgn_extn, end_extn, xy }, s8)
                                },
                            },
                        },
                    },
                },
            },
        },
    }
}

/// A structure reference, once its SREF record is read.
#[verifier::opaque]
pub open spec fn sp_sref(s: RecordStream) -> Stepped {
    match sp_elflags_plex(s) {
        Err(e) => Err(e),
        Ok(((elflags, plex), s1)) => 
        match sp_req_str(s1, RecordType::Sname, "Sref") {
            Err(e) => Err(e),
            Ok((sname, s2)) => 
            match sp_strans(s2) {
                Err(e) => Err(e),
                Ok((strans, s3)) => 
                match sp_xy(s3, "Sref") {
                    Err(e) => Err(e),
                    Ok((xy, s4)) => 
                    sp_element_end(ElementView::Sref { elflags, plex, sname, strans, xy }, s4)
                },
            },
        },
    }
}

/// An array reference, once its AREF record is read.
#[verifier::opaque]
pub open spec fn sp_aref(s: RecordStream) -> Stepped {
    match sp_elflags_plex(s) {
        Err(e) => Err(e),
        Ok(((elflags, plex), s1)) => 
        match sp_req_str(s1, RecordType::Sname, "Aref") {
            Err(e) => Err(e),
            Ok((sname, s2)) => 
            match sp_strans(s2) {
                Err(e) => Err(e),
                Ok((strans, s3)) => 
                match sp_colrow(s3) {
                    Err(e) => Err(e),
                    Ok((colrow, s4)) => 
                    match sp_xy(s4, "Aref") {
                        Err(e) => Err(e),
                        Ok((xy, s5)) => 
                        sp_element_end(ElementView::Aref { elflags, plex, sname, strans, colrow, xy }, s5)
                    },
                },
            },
        },
    }
}

/// A text element, once its TEXT record is read.
#[verifier::opaque]
pub open spec fn sp_text(s: RecordStream) -> Stepped {
    match sp_elflags_plex(s) {
        Err(e) => Err(e),
        Ok(((elflags, plex), s1)) => 
        match sp_req_i16(s1, RecordType::Layer, "Text") {
            Err(e) => Err(e),
            Ok((layer, s2)) => 
            match sp_req_i16(s2, RecordType::TextType, "Text") {
                Err(e) => Err(e),
                Ok((texttype, s3)) => 
                match sp_opt_u16(s3, RecordType::Presentation) {
                    Err(e) => Err(e),
                    Ok((presentation, s4)) => 
                    match sp_opt_i16(s4, RecordType::Pathtype) {
                        Err(e) => Err(e),
                        Ok((pathtype, s5)) => 
                        match sp_opt_i32(s5, RecordType::Width) {
                            Err(e) => Err(e),
                            Ok((width, s6)) => 
                            match sp_strans(s6) {
                                Err(e) => Err(e),
                                Ok((strans, s7)) => 
                                match sp_xy(s7, "Text") {
                                    Err(e) => Err(e),
                                    Ok((xy, s8)) => 
                                    match sp_req_str(s8, RecordType::String, "Text") {
                                        Err(e) => Err(e),
                                        Ok((string, s9)) => 
                                        sp_element_end(ElementView::Text { elflags, plex, layer, texttype, presentation, pathtype, width, strans, xy, string }, s9)
                                    },
                                },
                            },
                        },
                    },
                },
            },
        },
    }
}

/// A node, once its NODE record is read.
#[verifier::opaque]
pub open spec fn sp_node(s: RecordStream) -> Stepped {
    match sp_elflags_plex(s) {
        Err(e) => Err(e),
        Ok(((elflags, plex), s1)) => 
        match sp_req_i16(s1, RecordType::Layer, "Node") {
            Err(e) => Err(e),
            Ok((layer, s2)) => 
            match sp_req_i16(s2, RecordType::Nodetype, "Node") {
                Err(e) => Err(e),
                Ok((nodetype, s3)) => 
                match sp_xy(s3, "Node") {
                    Err(e) => Err(e),
                    Ok((xy, s4)) => 
                    sp_element_end(ElementView::Node { elflags, plex, layer, nodetype, xy }, s4)
                },
            },
        },
    }
}

/// A box, once its BOX record is read.
#[verifier::opaque]
pub open spec fn sp_gds_box(s: RecordStream) -> Stepped {
    match sp_elflags_plex(s) {
        Err(e) => Err(e),
        Ok(((elflags, plex), s1)) => 
        match sp_req_i16(s1, RecordType::Layer, "Box") {
            Err(e) => Err(e),
            Ok((layer, s2)) => 
            match sp_req_i16(s2, RecordType::BoxType, "Box") {
                Err(e) => Err(e),
                Ok((boxtype, s3)) => 
                match sp_xy(s3, "Box") {
                    Err(e) => Err(e),
                    Ok((xy, s4)) => 
                    sp_element_end(ElementView::Box { elflags, plex, layer, boxtype, xy }, s4)
                },
            },
        },
    }
}

/// Inside a structure: an element, or the end of the structure.
pub open spec fn sp_structure_item(s: RecordStream) -> Stepped {
    match sp_next(s, "structure") {
        Err(e) => Err(e),
        Ok((r, rest)) => {
            let t = r.header.record_type;
            if t == RecordType::Boundary {
                sp_boundary(rest)
            } else if t == RecordType::Path {
                sp_path(rest)
            } else if t == RecordType::Sref {
                sp_sref(rest)
            } else if t == RecordType::Aref {
                sp_aref(rest)
            } else if t == RecordType::Text {
                sp_text(rest)
            } else if t == RecordType::Node {
                sp_node(rest)
            } else if t == RecordType::Box {
                sp_gds_box(rest)
            } else if t == RecordType::EndStr {
                Ok((EventView::StructureEnd, rest, ParseState::Library))
            } else {
                Err(
                    ParseErrorView::UnexpectedRecord {
                        found: t,
                        context: "structure (expected element or ENDSTR)",
                    },
                )
            }
        },
    }
}

/// After an element with properties: a property, or the element's ENDEL followed by what
/// comes next in the structure.
pub open spec fn sp_property(s: RecordStream) -> Stepped {
    match sp_next(s, "properties") {
        Err(e) => Err(e),
        Ok((r, rest)) => {
            let t = r.header.record_type;
            if t == RecordType::Propattr {
                match body_i16(r.body, RecordType::Propattr) {
                    Err(e) => Err(e),
                    Ok(attr) => match sp_req_str(rest, RecordType::Propvalue, "property value") {
                        Err(e) => Err(e),
                        Ok((value, s1)) => Ok(
                            (EventView::Property { attr, value }, s1, ParseState::Properties),
                        ),
                    },
                }
            } else if t == RecordType::Endel {
                sp_structure_item(rest)
            } else {
                Err(
                    ParseErrorView::UnexpectedRecord {
                        found: t,
                        context: "properties (expected PROPATTR or ENDEL)",
                    },
                )
            }
        },
    }
}

/// A structure, once its BGNSTR record `r` is read: timestamps and STRNAME.
pub open spec fn sp_structure_begin(r: RecView, s: RecordStream) -> Stepped {
    match body_i16s(r.body, RecordType::BgnStr) {
        Err(e) => Err(e),
        Ok(timestamps) => match sp_req_str(s, RecordType::StrName, "structure begin") {
            Err(e) => Err(e),
            Ok((name, s1)) => Ok(
                (EventView::StructureBegin { timestamps, name }, s1, ParseState::Structure),
            ),
        },
    }
}

/// Between structures: a structure header, or the end of the library.
pub open spec fn sp_library_item(s: RecordStream) -> Stepped {
    match sp_next(s, "library") {
        Err(e) => Err(e),
        Ok((r, rest)) => {
            let t = r.header.record_type;
            if t == RecordType::BgnStr {
                sp_structure_begin(r, rest)
            } else if t == RecordType::EndLib {
                Ok((EventView::LibraryEnd, rest, ParseState::Done))
            } else {
                Err(
                    ParseErrorView::UnexpectedRecord {
                        found: t,
                        context: "library (expected BGNSTR or ENDLIB)",
                    },
                )
            }
        },
    }
}

/// Optional library records up to UNITS, which ends the library header.
pub open spec fn sp_library_options(
    s: RecordStream,
    version: i16,
    timestamps: Seq<i16>,
    lib_name: Seq<u8>,
    reflibs: Option<Seq<u8>>,
    fonts: Option<Seq<u8>>,
    attrtable: Option<Seq<u8>>,
    generations: Option<i16>,
) -> Stepped
    decreases s.len(),
{
    if s.len() == 0 {
        Err(ParseErrorView::UnexpectedEof { context: "library begin" })
    } else {
        match s[0] {
            Err(e) => Err(ParseErrorView::Body(e)),
            Ok(r) => {
                let t = r.header.record_type;
                let rest = s.drop_first();
                if t == RecordType::Units {
                    match body_two_reals(r.body, RecordType::Units) {
                        Err(e) => Err(e),
                        Ok((db_in_user, db_in_meters)) => Ok(
                            (
                                EventView::LibraryBegin {
                                    version,
                                    timestamps,
                                    lib_name,
                                    db_in_user,
                                    db_in_meters,
                                    reflibs,
                                    fonts,
                                    attrtable,
                                    generations,
                                },
                                rest,
                                ParseState::Library,
                            ),
                        ),
                    }
                } else if t == RecordType::Reflibs {
                    match body_str(r.body, RecordType::Reflibs) {
                        Err(e) => Err(e),
                        Ok(v) => sp_library_options(
                            rest,
                            version,
                            timestamps,
                            lib_name,
                            Some(v),
                            fonts,
                            attrtable,
                            generations,
                        ),
                    }
                } else if t == RecordType::Fonts {
                    match body_str(r.body, RecordType::Fonts) {
                        Err(e) => Err(e),
                        Ok(v) => sp_library_options(
                            rest,
                            version,
                            timestamps,
                            lib_name,
                            reflibs,
                            Some(v),
                            attrtable,
                            generations,
                        ),
                    }
                } else if t == RecordType::Attrtable {
                    match body_str(r.body, RecordType::Attrtable) {
                        Err(e) => Err(e),
                        Ok(v) => sp_library_options(
                            rest,
                            version,
                            timestamps,
                            lib_name,
                            reflibs,
                            fonts,
                            Some(v),
                            generations,
                        ),
                    }
                } else if t == RecordType::Generations {
                    match body_i16(r.body, RecordType::Generations) {
                        Err(e) => Err(e),
                        Ok(v) => sp_library_options(
                            rest,
                            version,
                            timestamps,
                            lib_name,
                            reflibs,
                            fonts,
                            attrtable,
                            Some(v),
                        ),
                    }
                } else if t == RecordType::Format || t == RecordType::Mask || t
                    == RecordType::EndMasks {
                    sp_library_options(
                        rest,
                        version,
                        timestamps,
                        lib_name,
                        reflibs,
                        fonts,
                        attrtable,
                        generations,
                    )
                } else {
                    Err(
                        ParseErrorView::UnexpectedRecord {
                            found: t,
                            context: "library begin (before UNITS)",
                        },
                    )
                }
            },
        }
    }
}

/// The library header: HEADER, BGNLIB, LIBNAME, optional records, UNITS.
pub open spec fn sp_library_begin(s: RecordStream) -> Stepped {
    match sp_req_i16(s, RecordType::Header, "library begin") {
        Err(e) => Err(e),
        Ok((version, s1)) => match sp_expect(s1, RecordType::BgnLib, "library begin") {
            Err(e) => Err(e),
            Ok((bgnlib, s2)) => match body_i16s(bgnlib.body, RecordType::BgnLib) {
                Err(e) => Err(e),
                Ok(timestamps) => match sp_req_str(s2, RecordType::LibName, "library begin") {
                    Err(e) => Err(e),
                    Ok((lib_name, s3)) => sp_library_options(
                        s3,
                        version,
                        timestamps,
                        lib_name,
                        None,
                        None,
                        None,
                        None,
                    ),
                },
            },
        },
    }
}

/// One parsing step from state `st` (not `Done`).
pub open spec fn sp_advance(st: ParseState, s: RecordStream) -> Stepped {
    match st {
        ParseState::Start => sp_library_begin(s),
        ParseState::Library => sp_library_item(s),
        ParseState::Structure => sp_structure_item(s),
        ParseState::Properties => sp_property(s),
        ParseState::Done => Err(ParseErrorView::UnexpectedEof { context: "end of library" }),
    }
}

// ------------------------------------------------------------------------------------------
// The parser
// ------------------------------------------------------------------------------------------

/// View of an optional record.
pub open spec fn opt_rec_view<'data>(o: Option<Record<'data>>) -> Option<RecView> {
    match o {
        Some(r) => Some(r@),
        None => None,
    }
}

/// Streaming event parser over GDS bytes. Yields `Result<GdsEvent, ParseError>` from
/// `next`; after the first error, and after the library's end, it yields nothing more.
#[derive(Debug)]
pub struct GdsParser<'data> {
    records: RecordIter<'data>,
    state: ParseState,
    peeked: Option<Record<'data>>,
}

/// Whether a step's result and the parser after it are those that `spec` describes.
pub open spec fn step_matches<'data>(
    spec: Stepped,
    r: Result<GdsEvent<'data>, ParseError>,
    p: GdsParser<'data>,
) -> bool {
    match spec {
        Ok((ev, rest, st)) => r is Ok && r->Ok_0@ == ev && p.pending() == rest && p.state() == st,
        Err(e) => r is Err && r->Err_0@ == e,
    }
}

impl<'data> GdsParser<'data> {
    /// The records left to parse.
    pub closed spec fn pending(&self) -> RecordStream {
        match self.peeked {
            Some(r) => seq![Ok(r@)] + self.records.remaining(),
            None => self.records.remaining(),
        }
    }

    /// Where the parser stands in the grammar.
    pub closed spec fn state(&self) -> ParseState {
        self.state
    }

    /// A parser over the records of `data`, before the library header.
    pub fn new(data: &'data [u8]) -> (r: Self)
        ensures
            r.pending() == spec_records(data@, 0),
            r.state() == ParseState::Start,
    {
        GdsParser { records: RecordIter::new(data), state: ParseState::Start, peeked: None }
    }

    /// The next record, from the one put back if any.
    fn take_record(&mut self) -> (r: Option<Result<Record<'data>, RecordError>>)
        ensures
            final(self).state == old(self).state,
            final(self).peeked is None,
            old(self).pending().len() == 0 ==> r is None && final(self).pending() == old(self).pending(),
            old(self).pending().len() > 0 ==> {
                &&& r is Some
                &&& read_view(r.unwrap()) == old(self).pending()[0]
                &&& r.unwrap() is Ok ==> final(self).pending() == old(self).pending().drop_first()
            },
    {
        match self.peeked.take() {
            Some(r) => {
                assert(old(self).pending() == seq![Ok(r@)] + self.records.remaining());
                assert((seq![Ok(r@)] + self.records.remaining()).drop_first() =~= self.records.remaining());
                Some(Ok(r))
            },
            None => {
                let ghost input = self.records.input();
                let ghost pos = self.records.position();
                let r = self.records.next();
                proof {
                    lemma_records_step(input, pos);
                    if let Some((Ok(_), next)) = spec_read_record(input, pos) {
                        assert((seq![spec_read_record(input, pos).unwrap().0] + spec_records(input, next)).drop_first()
                            =~= spec_records(input, next));
                    }
                }
                r
            },
        }
    }

    fn unpeek(&mut self, record: Record<'data>)
        requires
            old(self).peeked is None,
        ensures
            final(self).pending() == seq![Ok(record@)] + old(self).pending(),
            final(self).state == old(self).state,
    {
        self.peeked = Some(record);
    }

    fn next_record(&mut self, context: &'static str) -> (r: Result<Record<'data>, ParseError>)
        ensures
            final(self).state == old(self).state,
            final(self).peeked is None,
            match sp_next(old(self).pending(), context) {
                Ok((rec, rest)) => r is Ok && r->Ok_0@ == rec && final(self).pending() == rest,
                Err(e) => r is Err && r->Err_0@ == e,
            },
    {
        match self.take_record() {
            Some(Ok(r)) => Ok(r),
            Some(Err(e)) => Err(ParseError::Body(e)),
            None => Err(ParseError::UnexpectedEof { context }),
        }
    }

    fn expect_record(&mut self, expected: RecordType, context: &'static str) -> (r: Result<
        Record<'data>,
        ParseError,
    >)
        ensures
            final(self).state == old(self).state,
            final(self).peeked is None,
            match sp_expect(old(self).pending(), expected, context) {
                Ok((rec, rest)) => r is Ok && r->Ok_0@ == rec && final(self).pending() == rest,
                Err(e) => r is Err && r->Err_0@ == e,
            },
    {
        let r = self.next_record(context)?;
        if r.header.record_type == expected {
            Ok(r)
        } else {
            Err(ParseError::UnexpectedRecord { found: r.header.record_type, context })
        }
    }

    fn try_record(&mut self, expected: RecordType) -> (r: Result<Option<Record<'data>>, ParseError>)
        ensures
            final(self).state == old(self).state,
            match sp_try(old(self).pending(), expected) {
                Ok((o, rest)) => r is Ok && opt_rec_view(r->Ok_0) == o && final(self).pending()
                    == rest && (r->Ok_0 is Some ==> final(self).peeked is None),
                Err(e) => r is Err && r->Err_0@ == e,
            },
    {
        match self.take_record() {
            None => Ok(None),
            Some(Err(e)) => Err(ParseError::Body(e)),
            Some(Ok(r)) => {
                if r.header.record_type == expected {
                    Ok(Some(r))
                } else {
                    let ghost s = old(self).pending();
                    self.unpeek(r);
                    assert(seq![s[0]] + s.drop_first() =~= s);
                    Ok(None)
                }
            },
        }
    }

    fn req_i16(&mut self, t: RecordType, context: &'static str) -> (r: Result<i16, ParseError>)
        ensures
            final(self).state == old(self).state,
            final(self).peeked is None,
            match sp_req_i16(old(self).pending(), t, context) {
                Ok((v, rest)) => r == Ok::<i16, ParseError>(v) && final(self).pending() == rest,
                Err(e) => r is Err && r->Err_0@ == e,
            },
    {
        let rec = self.expect_record(t, context)?;
        extract_i16(&rec.body, t)
    }

    fn req_str(&mut self, t: RecordType, context: &'static str) -> (r: Result<&'data str, ParseError>)
        ensures
            final(self).state == old(self).state,
            final(self).peeked is None,
            match sp_req_str(old(self).pending(), t, context) {
                Ok((v, rest)) => r is Ok && r->Ok_0.spec_bytes() == v && final(self).pending() == rest,
                Err(e) => r is Err && r->Err_0@ == e,
            },
    {
        let rec = self.expect_record(t, context)?;
        extract_str(&rec.body, t)
    }

    fn opt_i16(&mut self, t: RecordType) -> (r: Result<Option<i16>, ParseError>)
        ensures
            final(self).state == old(self).state,
            match sp_opt_i16(old(self).pending(), t) {
                Ok((v, rest)) => r == Ok::<Option<i16>, ParseError>(v) && final(self).pending() == rest,
                Err(e) => r is Err && r->Err_0@ == e,
            },
    {
        match self.try_record(t)? {
            Some(rec) => Ok(Some(extract_i16(&rec.body, t)?)),
            None => Ok(None),
        }
    }

    fn opt_i32(&mut self, t: RecordType) -> (r: Result<Option<i32>, ParseError>)
        ensures
            final(self).state == old(self).state,
            match sp_opt_i32(old(self).pending(), t) {
                Ok((v, rest)) => r == Ok::<Option<i32>, ParseError>(v) && final(self).pending() == rest,
                Err(e) => r is Err && r->Err_0@ == e,
            },
    {
        match self.try_record(t)? {
            Some(rec) => Ok(Some(extract_i32(&rec.body, t)?)),
            None => Ok(None),
        }
    }

    fn opt_u16(&mut self, t: RecordType) -> (r: Result<Option<u16>, ParseError>)
        ensures
            final(self).state == old(self).state,
            match sp_opt_u16(old(self).pending(), t) {
                Ok((v, rest)) => r == Ok::<Option<u16>, ParseError>(v) && final(self).pending() == rest,
                Err(e) => r is Err && r->Err_0@ == e,
            },
    {
        match self.try_record(t)? {
            Some(rec) => Ok(Some(extract_u16(&rec.body, t)?)),
            None => Ok(None),
        }
    }

    fn opt_real(&mut self, t: RecordType) -> (r: Result<Option<GdsEightByteReal>, ParseError>)
        ensures
            final(self).state == old(self).state,
            match sp_opt_real(old(self).pending(), t) {
                Ok((v, rest)) => r is Ok && opt_real_bytes(r->Ok_0) == v && final(self).pending()
                    == rest,
                Err(e) => r is Err && r->Err_0@ == e,
            },
    {
        match self.try_record(t)? {
            Some(rec) => Ok(Some(extract_real(&rec.body, t)?)),
            None => Ok(None),
        }
    }

    fn parse_elflags_plex(&mut self) -> (r: Result<(Option<u16>, Option<i32>), ParseError>)
        ensures
            final(self).state == old(self).state,
            match sp_elflags_plex(old(self).pending()) {
                Ok((v, rest)) => r == Ok::<_, ParseError>(v) && final(self).pending() == rest,
                Err(e) => r is Err && r->Err_0@ == e,
            },
    {
        let elflags = self.opt_u16(RecordType::Elflags)?;
        let plex = self.opt_i32(RecordType::Plex)?;
        Ok((elflags, plex))
    }

    fn parse_strans(&mut self) -> (r: Result<Option<Strans>, ParseError>)
        ensures
            final(self).state == old(self).state,
            match sp_strans(old(self).pending()) {
                Ok((v, rest)) => r is Ok && opt_strans_view(r->Ok_0) == v && final(self).pending()
                    == rest,
                Err(e) => r is Err && r->Err_0@ == e,
            },
    {
        let strans_rec = match self.try_record(RecordType::Strans)? {
            Some(rec) => rec,
            None => return Ok(None),
        };
        let flags = extract_u16(&strans_rec.body, RecordType::Strans)?;
        let mag = self.opt_real(RecordType::Mag)?;
        let angle = self.opt_real(RecordType::Angle)?;
        Ok(
            Some(
                Strans {
                    reflection: flags >= 0x8000,
                    abs_mag: (flags / 4) % 2 == 1,
                    abs_angle: (flags / 2) % 2 == 1,
                    mag,
                    angle,
                },
            ),
        )
    }

    /// An XY record and the XY records right after it, as one coordinate list.
    fn parse_xy(&mut self, context: &'static str) -> (r: Result<XyCoords, ParseError>)
        ensures
            final(self).state == old(self).state,
            match sp_xy(old(self).pending(), context) {
                Ok((v, rest)) => r is Ok && r->Ok_0@ == v && final(self).pending() == rest,
                Err(e) => r is Err && r->Err_0@ == e,
            },
    {
        let rec = self.expect_record(RecordType::Xy, context)?;
        let mut coords = extract_i32_slice(rec.body, RecordType::Xy)?;
        loop
            invariant_except_break
                self.state == old(self).state,
                sp_xy(old(self).pending(), context) == sp_more_xy(self.pending(), coords@),
            ensures
                self.state == old(self).state,
                sp_xy(old(self).pending(), context) == Ok::<_, ParseErrorView>(
                    (coords@, self.pending()),
                ),
            decreases self.pending().len(),
        {
            match self.try_record(RecordType::Xy)? {
                Some(more) => {
                    let mut more = extract_i32_slice(more.body, RecordType::Xy)?;
                    coords.append(&mut more);
                },
                None => break,
            }
        }
        Ok(XyCoords::new(coords))
    }

    fn parse_colrow(&mut self) -> (r: Result<(i16, i16), ParseError>)
        ensures
            final(self).state == old(self).state,
            match sp_colrow(old(self).pending()) {
                Ok((v, rest)) => r == Ok::<_, ParseError>(v) && final(self).pending() == rest,
                Err(e) => r is Err && r->Err_0@ == e,
            },
    {
        let rec = self.expect_record(RecordType::Colrow, "Aref")?;
        let v = extract_i16_slice(rec.body, RecordType::Colrow)?;
        if v.len() < 2 {
            return Err(
                ParseError::WrongBodyType {
                    record_type: RecordType::Colrow,
                    expected: "TwoByteSignedInt with ≥2 elements",
                },
            );
        }
        Ok((v[0], v[1]))
    }

    /// ENDEL ends the element; PROPATTR is left unread for the element's properties.
    fn finish_element(&mut self) -> (r: Result<(), ParseError>)
        ensures
            match sp_finish(old(self).pending()) {
                Ok((rest, st)) => r is Ok && final(self).pending() == rest && final(self).state
                    == st,
                Err(e) => r is Err && r->Err_0@ == e,
            },
    {
        let ghost s = old(self).pending();
        let rec = self.next_record("element end")?;
        if rec.header.record_type == RecordType::Endel {
            self.state = ParseState::Structure;
            Ok(())
        } else if rec.header.record_type == RecordType::Propattr {
            self.unpeek(rec);
            assert(seq![s[0]] + s.drop_first() =~= s);
            self.state = ParseState::Properties;
            Ok(())
        } else {
            Err(
                ParseError::UnexpectedRecord {
                    found: rec.header.record_type,
                    context: "element end (expected ENDEL or PROPATTR)",
                },
            )
        }
    }

    /// A boundary, after its BOUNDARY record.
    fn parse_boundary(&mut self) -> (r: Result<GdsEvent<'data>, ParseError>)
        ensures
            step_matches(sp_boundary(old(self).pending()), r, *final(self)),
    {
        proof {
            reveal(sp_boundary);
        }
        let (elflags, plex) = self.parse_elflags_plex()?;
        let layer = self.req_i16(RecordType::Layer, "Boundary")?;
        let datatype = self.req_i16(RecordType::Datatype, "Boundary")?;
        let xy = self.parse_xy("Boundary")?;
        self.finish_element()?;
        Ok(GdsEvent::Element(Element::Boundary(Boundary { elflags, plex, layer, datatype, xy })))
    }

    /// A path, after its PATH record.
    fn parse_path(&mut self) -> (r: Result<GdsEvent<'data>, ParseError>)
        ensures
            step_matches(sp_path(old(self).pending()), r, *final(self)),
    {
        proof {
            reveal(sp_path);
        }
        let (elflags, plex) = self.parse_elflags_plex()?;
        let layer = self.req_i16(RecordType::Layer, "Path")?;
        let datatype = self.req_i16(RecordType::Datatype, "Path")?;
        let pathtype = self.opt_i16(RecordType::Pathtype)?;
        let width = self.opt_i32(RecordType::Width)?;
        let bgn_extn = self.opt_i32(RecordType::BgnExtn)?;
        let end_extn = self.opt_i32(RecordType::EndExtn)?;
        let xy = self.parse_xy("Path")?;
        self.finish_element()?;
        Ok(GdsEvent::Element(Element::Path(Path { elflags, plex, layer, datatype, pathtype, width, bgn_extn, end_extn, xy })))
    }

    /// A structure reference, after its SREF record.
    fn parse_sref(&mut self) -> (r: Result<GdsEvent<'data>, ParseError>)
        ensures
            step_matches(sp_sref(old(self).pending()), r, *final(self)),
    {
        proof {
            reveal(sp_sref);
        }
        let (elflags, plex) = self.parse_elflags_plex()?;
        let sname = self.req_str(RecordType::Sname, "Sref")?;
        let strans = self.parse_strans()?;
        let xy = self.parse_xy("Sref")?;
        self.finish_element()?;
        Ok(GdsEvent::Element(Element::Sref(Sref { elflags, plex, sname, strans, xy })))
    }

    /// An array reference, after its AREF record.
    fn parse_aref(&mut self) -> (r: Result<GdsEvent<'data>, ParseError>)
        ensures
            step_matches(sp_aref(old(self).pending()), r, *final(self)),
    {
        proof {
            reveal(sp_aref);
        }
        let (elflags, plex) = self.parse_elflags_plex()?;
        let sname = self.req_str(RecordType::Sname, "Aref")?;
        let strans = self.parse_strans()?;
        let colrow = self.parse_colrow()?;
        let xy = self.parse_xy("Aref")?;
        self.finish_element()?;
        Ok(GdsEvent::Element(Element::Aref(Aref { elflags, plex, sname, strans, colrow, xy })))
    }

    /// A text element, after its TEXT record.
    fn parse_text(&mut self) -> (r: Result<GdsEvent<'data>, ParseError>)
        ensures
            step_matches(sp_text(old(self).pending()), r, *final(self)),
    {
        proof {
            reveal(sp_text);
        }
        let (elflags, plex) = self.parse_elflags_plex()?;
        let layer = self.req_i16(RecordType::Layer, "Text")?;
        let texttype = self.req_i16(RecordType::TextType, "Text")?;
        let presentation = self.opt_u16(RecordType::Presentation)?;
        let pathtype = self.opt_i16(RecordType::Pathtype)?;
        let width = self.opt_i32(RecordType::Width)?;
        let strans = self.parse_strans()?;
        let xy = self.parse_xy("Text")?;
        let string = self.req_str(RecordType::String, "Text")?;
        self.finish_element()?;
        Ok(GdsEvent::Element(Element::Text(Text { elflags, plex, layer, texttype, presentation, pathtype, width, strans, xy, string })))
    }

    /// A node, after its NODE record.
    fn parse_node(&mut self) -> (r: Result<GdsEvent<'data>, ParseError>)
        ensures
            step_matches(sp_node(old(self).pending()), r, *final(self)),
    {
        proof {
            reveal(sp_node);
        }
        let (elflags, plex) = self.parse_elflags_plex()?;
        let layer = self.req_i16(RecordType::Layer, "Node")?;
        let nodetype = self.req_i16(RecordType::Nodetype, "Node")?;
        let xy = self.parse_xy("Node")?;
        self.finish_element()?;
        Ok(GdsEvent::Element(Element::Node(Node { elflags, plex, layer, nodetype, xy })))
    }

    /// A box, after its BOX record.
    fn parse_gds_box(&mut self) -> (r: Result<GdsEvent<'data>, ParseError>)
        ensures
            step_matches(sp_gds_box(old(self).pending()), r, *final(self)),
    {
        proof {
            reveal(sp_gds_box);
        }
        let (elflags, plex) = self.parse_elflags_plex()?;
        let layer = self.req_i16(RecordType::Layer, "Box")?;
        let boxtype = self.req_i16(RecordType::BoxType, "Box")?;
        let xy = self.parse_xy("Box")?;
        self.finish_element()?;
        Ok(GdsEvent::Element(Element::Box(GdsBox { elflags, plex, layer, boxtype, xy })))
    }

    /// Inside a structure: an element, or the end of the structure.
    fn parse_in_structure(&mut self) -> (r: Result<GdsEvent<'data>, ParseError>)
        ensures
            step_matches(sp_structure_item(old(self).pending()), r, *final(self)),
    {
        let rec = self.next_record("structure")?;
        match rec.header.record_type {
            RecordType::Boundary => self.parse_boundary(),
            RecordType::Path => self.parse_path(),
            RecordType::Sref => self.parse_sref(),
            RecordType::Aref => self.parse_aref(),
            RecordType::Text => self.parse_text(),
            RecordType::Node => self.parse_node(),
            RecordType::Box => self.parse_gds_box(),
            RecordType::EndStr => {
                self.state = ParseState::Library;
                Ok(GdsEvent::StructureEnd)
            },
            other => Err(
                ParseError::UnexpectedRecord {
                    found: other,
                    context: "structure (expected element or ENDSTR)",
                },
            ),
        }
    }

    /// After an element with properties: the next property, or the element's ENDEL and
    /// what follows it in the structure.
    fn parse_property(&mut self) -> (r: Result<GdsEvent<'data>, ParseError>)
        requires
            old(self).state == ParseState::Properties,
        ensures
            step_matches(sp_property(old(self).pending()), r, *final(self)),
    {
        let rec = self.next_record("properties")?;
        match rec.header.record_type {
            RecordType::Propattr => {
                let attr = extract_i16(&rec.body, RecordType::Propattr)?;
                let value = self.req_str(RecordType::Propvalue, "property value")?;
                Ok(GdsEvent::Property(Property { attr, value }))
            },
            RecordType::Endel => {
                self.state = ParseState::Structure;
                self.parse_in_structure()
            },
            other => Err(
                ParseError::UnexpectedRecord {
                    found: other,
                    context: "properties (expected PROPATTR or ENDEL)",
                },
            ),
        }
    }

    /// A structure header, after its BGNSTR record `bgnstr`.
    fn parse_structure_begin(&mut self, bgnstr: Record<'data>) -> (r: Result<
        GdsEvent<'data>,
        ParseError,
    >)
        ensures
            step_matches(sp_structure_begin(bgnstr@, old(self).pending()), r, *final(self)),
    {
        let timestamps = extract_i16_slice(bgnstr.body, RecordType::BgnStr)?;
        let name = self.req_str(RecordType::StrName, "structure begin")?;
        self.state = ParseState::Structure;
        Ok(GdsEvent::StructureBegin(StructureBegin { timestamps, name }))
    }

    /// Between structures: a structure header, or the end of the library.
    fn parse_in_library(&mut self) -> (r: Result<GdsEvent<'data>, ParseError>)
        ensures
            step_matches(sp_library_item(old(self).pending()), r, *final(self)),
    {
        let rec = self.next_record("library")?;
        match rec.header.record_type {
            RecordType::BgnStr => self.parse_structure_begin(rec),
            RecordType::EndLib => {
                self.state = ParseState::Done;
                Ok(GdsEvent::LibraryEnd)
            },
            other => Err(
                ParseError::UnexpectedRecord {
                    found: other,
                    context: "library (expected BGNSTR or ENDLIB)",
                },
            ),
        }
    }

    /// The library header: HEADER, BGNLIB, LIBNAME, then optional records up to UNITS.
    fn parse_library_begin(&mut self) -> (r: Result<GdsEvent<'data>, ParseError>)
        ensures
            step_matches(sp_library_begin(old(self).pending()), r, *final(self)),
    {
        let version = self.req_i16(RecordType::Header, "library begin")?;
        let bgnlib = self.expect_record(RecordType::BgnLib, "library begin")?;
        let timestamps = extract_i16_slice(bgnlib.body, RecordType::BgnLib)?;
        let lib_name = self.req_str(RecordType::LibName, "library begin")?;
        let mut reflibs: Option<&'data str> = None;
        let mut fonts: Option<&'data str> = None;
        let mut attrtable: Option<&'data str> = None;
        let mut generations: Option<i16> = None;
        loop
            invariant
                sp_library_begin(old(self).pending()) == sp_library_options(
                    self.pending(),
                    version,
                    timestamps@,
                    lib_name.spec_bytes(),
                    opt_bytes(reflibs),
                    opt_bytes(fonts),
                    opt_bytes(attrtable),
                    generations,
                ),
            decreases self.pending().len(),
        {
            let ghost s = self.pending();
            let rec = self.next_record("library begin")?;
            match rec.header.record_type {
                RecordType::Units => {
                    let (db_in_user, db_in_meters) = extract_two_reals(
                        &rec.body,
                        RecordType::Units,
                    )?;
                    self.state = ParseState::Library;
                    return Ok(
                        GdsEvent::LibraryBegin(
                            LibraryBegin {
                                version,
                                timestamps,
                                lib_name,
                                db_in_user,
                                db_in_meters,
                                reflibs,
                                fonts,
                                attrtable,
                                generations,
                            },
                        ),
                    );
                },
                RecordType::Reflibs => {
                    reflibs = Some(extract_str(&rec.body, RecordType::Reflibs)?);
                },
                RecordType::Fonts => {
                    fonts = Some(extract_str(&rec.body, RecordType::Fonts)?);
                },
                RecordType::Attrtable => {
                    attrtable = Some(extract_str(&rec.body, RecordType::Attrtable)?);
                },
                RecordType::Generations => {
                    generations = Some(extract_i16(&rec.body, RecordType::Generations)?);
                },
                RecordType::Format | RecordType::Mask | RecordType::EndMasks => {},
                other => {
                    return Err(
                        ParseError::UnexpectedRecord {
                            found: other,
                            context: "library begin (before UNITS)",
                        },
                    );
                },
            }
        }
    }

    /// One step of the grammar from the current state.
    fn advance(&mut self) -> (r: Result<GdsEvent<'data>, ParseError>)
        requires
            old(self).state() != ParseState::Done,
        ensures
            step_matches(sp_advance(old(self).state(), old(self).pending()), r, *final(self)),
    {
        match self.state {
            ParseState::Start => self.parse_library_begin(),
            ParseState::Library => self.parse_in_library(),
            ParseState::Structure => self.parse_in_structure(),
            ParseState::Properties => self.parse_property(),
            ParseState::Done => Err(ParseError::UnexpectedEof { context: "end of library" }),
        }
    }

    /// The next event: `None` once the library has ended or an error was returned;
    /// otherwise the event (or error) that the grammar gives for the records left.
    pub fn next(&mut self) -> (r: Option<Result<GdsEvent<'data>, ParseError>>)
        ensures
            old(self).state() == ParseState::Done ==> r is None && final(self).state()
                == ParseState::Done && final(self).pending() == old(self).pending(),
            old(self).state() != ParseState::Done ==> r is Some && match sp_advance(
                old(self).state(),
                old(self).pending(),
            ) {
                Ok((ev, rest, st)) => r.unwrap() is Ok && r.unwrap()->Ok_0@ == ev
                    && final(self).pending() == rest && final(self).state() == st,
                Err(e) => r.unwrap() is Err && r.unwrap()->Err_0@ == e && final(self).state()
                    == ParseState::Done,
            },
    {
        if self.state == ParseState::Done {
            return None;
        }
        let result = self.advance();
        if result.is_err() {
            self.state = ParseState::Done;
        }
        Some(result)
    }
}

} // verus!
