//! GDS writer: turns events into GDSII record bytes.
//!
//! The writer appends to a byte buffer; it keeps one bit of state, whether an element's
//! ENDEL is still owed, so that ENDEL follows the element's properties.
use crate::bytes::{be_bytes, be_sbytes, i16_to_be, i32_to_be, u16_to_be};
use crate::events::{
    Aref, Boundary, Element, ElementView, EventView, GdsBox, GdsEvent, LibraryBegin, Node, Path,
    Sref, Strans, StransView, StructureBegin, Text, XyCoords,
};
use crate::float::GdsEightByteReal;
use crate::reader::BodyView;
use crate::types::{DataType, RecordHeader, RecordType, MAX_XY_POINTS_PER_RECORD};
use vstd::prelude::*;
use vstd::string::StringSliceAdditionalSpecFns;

verus! {

broadcast use vstd::seq_lib::group_seq_properties, vstd::seq::Seq::lemma_flatten_push;

// ------------------------------------------------------------------------------------------
// Records on the wire
// ------------------------------------------------------------------------------------------

/// A record to write: its type and body.
pub struct OutRecord {
    pub record_type: RecordType,
    pub body: BodyView,
}

/// Data type of a body.
pub open spec fn body_data_type(b: BodyView) -> DataType {
    match b {
        BodyView::NoData => DataType::NoData,
        BodyView::BitArray(_) => DataType::BitArray,
        BodyView::TwoByteSignedInt(_) => DataType::TwoByteSignedInt,
        BodyView::FourByteSignedInt(_) => DataType::FourByteSignedInt,
        BodyView::FourByteReal(_) => DataType::FourByteReal,
        BodyView::EightByteReal(_) => DataType::EightByteReal,
        BodyView::AsciiString(_) => DataType::AsciiString,
    }
}

/// Big-endian bytes of each value, one after the other.
pub open spec fn flat_u16(v: Seq<u16>) -> Seq<u8>
    decreases v.len(),
{
    if v.len() == 0 {
        Seq::empty()
    } else {
        flat_u16(v.drop_last()) + be_bytes(v.last() as nat, 2)
    }
}

/// Big-endian two's-complement bytes of each value, one after the other.
pub open spec fn flat_i16(v: Seq<i16>) -> Seq<u8>
    decreases v.len(),
{
    if v.len() == 0 {
        Seq::empty()
    } else {
        flat_i16(v.drop_last()) + be_sbytes(v.last() as int, 2)
    }
}

/// Big-endian two's-complement bytes of each value, one after the other.
pub open spec fn flat_i32(v: Seq<i32>) -> Seq<u8>
    decreases v.len(),
{
    if v.len() == 0 {
        Seq::empty()
    } else {
        flat_i32(v.drop_last()) + be_sbytes(v.last() as int, 4)
    }
}

/// Big-endian bytes of the values of a body; strings padded with a null byte to an even
/// length.
pub open spec fn body_bytes(b: BodyView) -> Seq<u8> {
    match b {
        BodyView::NoData => Seq::empty(),
        BodyView::BitArray(v) => flat_u16(v),
        BodyView::TwoByteSignedInt(v) => flat_i16(v),
        BodyView::FourByteSignedInt(v) => flat_i32(v),
        BodyView::FourByteReal(v) => v.flatten(),
        BodyView::EightByteReal(v) => v.flatten(),
        BodyView::AsciiString(s) => if s.len() % 2 == 1 {
            s.push(0)
        } else {
            s
        },
    }
}

/// The length field of a record whose body has `body_len` bytes: the count includes the
/// four header bytes and is kept to its 16 bits.
pub open spec fn record_length(body_len: nat) -> u16 {
    ((4 + body_len) % 65536) as u16
}

/// The bytes of a record.
pub open spec fn out_record_bytes(r: OutRecord) -> Seq<u8> {
    let body = body_bytes(r.body);
    RecordHeader {
        length: record_length(body.len()),
        record_type: r.record_type,
        data_type: body_data_type(r.body),
    }.spec_bytes() + body
}

/// The bytes of a sequence of records.
pub open spec fn records_bytes(rs: Seq<OutRecord>) -> Seq<u8> {
    rs.map_values(|r: OutRecord| out_record_bytes(r)).flatten()
}

/// The bytes of records with one more record are followed by that record's bytes.
pub proof fn lemma_records_bytes_push(rs: Seq<OutRecord>, r: OutRecord)
    ensures
        records_bytes(rs.push(r)) == records_bytes(rs) + out_record_bytes(r),
{
    let f = |r: OutRecord| out_record_bytes(r);
    assert(rs.push(r).map_values(f) =~= rs.map_values(f).push(f(r)));
}

/// The bytes of two runs of records, one after the other, are the bytes of both runs.
pub proof fn lemma_records_bytes_concat(a: Seq<OutRecord>, b: Seq<OutRecord>)
    ensures
        records_bytes(a + b) == records_bytes(a) + records_bytes(b),
    decreases b.len(),
{
    if b.len() == 0 {
        assert(a + b =~= a);
        assert(records_bytes(b) =~= Seq::empty());
    } else {
        lemma_records_bytes_concat(a, b.drop_last());
        assert(a + b =~= (a + b.drop_last()).push(b.last()));
        assert(b =~= b.drop_last().push(b.last()));
        lemma_records_bytes_push(a + b.drop_last(), b.last());
        lemma_records_bytes_push(b.drop_last(), b.last());
    }
}

/// The bytes of one record.
pub proof fn lemma_records_bytes_one(r: OutRecord)
    ensures
        records_bytes(seq![r]) == out_record_bytes(r),
{
    assert(seq![r] =~= Seq::<OutRecord>::empty().push(r));
    lemma_records_bytes_push(Seq::empty(), r);
    assert(records_bytes(Seq::empty()) =~= Seq::empty());
}

// ------------------------------------------------------------------------------------------
// The records of each event
// ------------------------------------------------------------------------------------------

/// Most coordinates in one XY record.
pub open spec fn xy_chunk() -> nat {
    (2 * MAX_XY_POINTS_PER_RECORD) as nat
}

/// One record.
pub open spec fn one(t: RecordType, b: BodyView) -> Seq<OutRecord> {
    seq![OutRecord { record_type: t, body: b }]
}

/// A two-byte integer record, if there is a value.
pub open spec fn opt_i16(t: RecordType, o: Option<i16>) -> Seq<OutRecord> {
    match o {
        Some(v) => one(t, BodyView::TwoByteSignedInt(seq![v])),
        None => Seq::empty(),
    }
}

/// A four-byte integer record, if there is a value.
pub open spec fn opt_i32(t: RecordType, o: Option<i32>) -> Seq<OutRecord> {
    match o {
        Some(v) => one(t, BodyView::FourByteSignedInt(seq![v])),
        None => Seq::empty(),
    }
}

/// A bit array record, if there is a value.
pub open spec fn opt_u16(t: RecordType, o: Option<u16>) -> Seq<OutRecord> {
    match o {
        Some(v) => one(t, BodyView::BitArray(seq![v])),
        None => Seq::empty(),
    }
}

/// A string record, if there is a value.
pub open spec fn opt_str(t: RecordType, o: Option<Seq<u8>>) -> Seq<OutRecord> {
    match o {
        Some(s) => one(t, BodyView::AsciiString(s)),
        None => Seq::empty(),
    }
}

/// An eight-byte real record, if there is a value.
pub open spec fn opt_real(t: RecordType, o: Option<Seq<u8>>) -> Seq<OutRecord> {
    match o {
        Some(r) => one(t, BodyView::EightByteReal(seq![r])),
        None => Seq::empty(),
    }
}

/// XY records of a coordinate list: one record, or, where splitting is on and the list is
/// longer than one record holds, full records followed by the rest.
pub open spec fn xy_records(xy: Seq<i32>, split: bool) -> Seq<OutRecord>
    decreases xy.len(),
{
    if split && xy.len() > xy_chunk() {
        one(RecordType::Xy, BodyView::FourByteSignedInt(xy.take(xy_chunk() as int))) + xy_records(
            xy.skip(xy_chunk() as int),
            split,
        )
    } else {
        one(RecordType::Xy, BodyView::FourByteSignedInt(xy))
    }
}

/// The optional ELFLAGS and PLEX records of an element.
pub open spec fn elflags_plex_records(elflags: Option<u16>, plex: Option<i32>) -> Seq<OutRecord> {
    opt_u16(RecordType::Elflags, elflags) + opt_i32(RecordType::Plex, plex)
}

/// STRANS flag word: bit 15 reflection, bit 2 absolute magnification, bit 1 absolute angle.
pub open spec fn strans_flags(s: StransView) -> u16 {
    ((if s.reflection { 0x8000int } else { 0 }) + (if s.abs_mag { 4int } else { 0 }) + (
    if s.abs_angle {
        2int
    } else {
        0
    })) as u16
}

/// Bits of the STRANS word that the writer writes: bit 15 (0x8000) set exactly for a
/// reflection, bit 2 (0x0004) exactly for absolute magnification, bit 1 (0x0002) exactly
/// for absolute angle, and no other bit.
pub proof fn lemma_strans_flags_bits(s: StransView)
    ensures
        (strans_flags(s) & 0x8000 != 0) == s.reflection,
        (strans_flags(s) & 0x0004 != 0) == s.abs_mag,
        (strans_flags(s) & 0x0002 != 0) == s.abs_angle,
        strans_flags(s) & 0x7FF9 == 0,
{
    let f = strans_flags(s);
    let r = s.reflection;
    let m = s.abs_mag;
    let a = s.abs_angle;
    assert(f == (if r { 0x8000u16 } else { 0u16 }) + (if m { 4u16 } else { 0u16 }) + (if a {
        2u16
    } else {
        0u16
    }));
    assert({
        let g: u16 = ((if r { 0x8000u16 } else { 0u16 }) + (if m { 4u16 } else { 0u16 }) + (if a {
            2u16
        } else {
            0u16
        })) as u16;
        &&& (g & 0x8000 != 0) == r
        &&& (g & 0x0004 != 0) == m
        &&& (g & 0x0002 != 0) == a
        &&& g & 0x7FF9 == 0
    }) by (bit_vector);
}

/// STRANS with its optional MAG and ANGLE, if there is a transformation.
pub open spec fn strans_records(o: Option<StransView>) -> Seq<OutRecord> {
    match o {
        Some(s) => one(RecordType::Strans, BodyView::BitArray(seq![strans_flags(s)])) + opt_real(
            RecordType::Mag,
            s.mag,
        ) + opt_real(RecordType::Angle, s.angle),
        None => Seq::empty(),
    }
}

/// Records of an element, from its opening record to its coordinates (and, for text, its
/// string); ENDEL comes later.
pub open spec fn element_records(e: ElementView, split: bool) -> Seq<OutRecord> {
    match e {
        ElementView::Boundary { elflags, plex, layer, datatype, xy } => one(
            RecordType::Boundary,
            BodyView::NoData,
        ) + elflags_plex_records(elflags, plex) + one(
            RecordType::Layer,
            BodyView::TwoByteSignedInt(seq![layer]),
        ) + one(RecordType::Datatype, BodyView::TwoByteSignedInt(seq![datatype])) + xy_records(
            xy,
            split,
        ),
        ElementView::Path {
            elflags,
            plex,
            layer,
            datatype,
            pathtype,
            width,
            bgn_extn,
            end_extn,
            xy,
        } => one(RecordType::Path, BodyView::NoData) + elflags_plex_records(elflags, plex) + one(
            RecordType::Layer,
            BodyView::TwoByteSignedInt(seq![layer]),
        ) + one(RecordType::Datatype, BodyView::TwoByteSignedInt(seq![datatype])) + opt_i16(
            RecordType::Pathtype,
            pathtype,
        ) + opt_i32(RecordType::Width, width) + opt_i32(RecordType::BgnExtn, bgn_extn) + opt_i32(
            RecordType::EndExtn,
            end_extn,
        ) + xy_records(xy, split),
        ElementView::Sref { elflags, plex, sname, strans, xy } => one(
            RecordType::Sref,
            BodyView::NoData,
        ) + elflags_plex_records(elflags, plex) + one(
            RecordType::Sname,
            BodyView::AsciiString(sname),
        ) + strans_records(strans) + xy_records(xy, split),
        ElementView::Aref { elflags, plex, sname, strans, colrow, xy } => one(
            RecordType::Aref,
            BodyView::NoData,
        ) + elflags_plex_records(elflags, plex) + one(
            RecordType::Sname,
            BodyView::AsciiString(sname),
        ) + strans_records(strans) + one(
            RecordType::Colrow,
            BodyView::TwoByteSignedInt(seq![colrow.0, colrow.1]),
        ) + xy_records(xy, split),
        ElementView::Text {
            elflags,
            plex,
            layer,
            texttype,
            presentation,
            pathtype,
            width,
            strans,
            xy,
            string,
        } => one(RecordType::Text, BodyView::NoData) + elflags_plex_records(elflags, plex) + one(
            RecordType::Layer,
            BodyView::TwoByteSignedInt(seq![layer]),
        ) + one(RecordType::TextType, BodyView::TwoByteSignedInt(seq![texttype])) + opt_u16(
            RecordType::Presentation,
            presentation,
        ) + opt_i16(RecordType::Pathtype, pathtype) + opt_i32(RecordType::Width, width)
            + strans_records(strans) + xy_records(xy, split) + one(
            RecordType::String,
            BodyView::AsciiString(string),
        ),
        ElementView::Node { elflags, plex, layer, nodetype, xy } => one(
            RecordType::Node,
            BodyView::NoData,
        ) + elflags_plex_records(elflags, plex) + one(
            RecordType::Layer,
            BodyView::TwoByteSignedInt(seq![layer]),
        ) + one(RecordType::Nodetype, BodyView::TwoByteSignedInt(seq![nodetype])) + xy_records(
            xy,
            split,
        ),
        ElementView::Box { elflags, plex, layer, boxtype, xy } => one(
            RecordType::Box,
            BodyView::NoData,
        ) + elflags_plex_records(elflags, plex) + one(
            RecordType::Layer,
            BodyView::TwoByteSignedInt(seq![layer]),
        ) + one(RecordType::BoxType, BodyView::TwoByteSignedInt(seq![boxtype])) + xy_records(
            xy,
            split,
        ),
    }
}

/// The owed ENDEL, if any.
pub open spec fn endel_records(needs_endel: bool) -> Seq<OutRecord> {
    if needs_endel {
        one(RecordType::Endel, BodyView::NoData)
    } else {
        Seq::empty()
    }
}

/// Records written for an event, given whether an ENDEL is owed and whether long
/// coordinate lists are split.
pub open spec fn event_records(e: EventView, needs_endel: bool, split: bool) -> Seq<OutRecord> {
    match e {
        EventView::LibraryBegin {
            version,
            timestamps,
            lib_name,
            db_in_user,
            db_in_meters,
            reflibs,
            fonts,
            attrtable,
            generations,
        } => one(RecordType::Header, BodyView::TwoByteSignedInt(seq![version])) + one(
            RecordType::BgnLib,
            BodyView::TwoByteSignedInt(timestamps),
        ) + one(RecordType::LibName, BodyView::AsciiString(lib_name)) + opt_str(
            RecordType::Reflibs,
            reflibs,
        ) + opt_str(RecordType::Fonts, fonts) + opt_str(RecordType::Attrtable, attrtable)
            + opt_i16(RecordType::Generations, generations) + one(
            RecordType::Units,
            BodyView::EightByteReal(seq![db_in_user, db_in_meters]),
        ),
        EventView::StructureBegin { timestamps, name } => endel_records(needs_endel) + one(
            RecordType::BgnStr,
            BodyView::TwoByteSignedInt(timestamps),
        ) + one(RecordType::StrName, BodyView::AsciiString(name)),
        EventView::Element(el) => endel_records(needs_endel) + element_records(el, split),
        EventView::Property { attr, value } => one(
            RecordType::Propattr,
            BodyView::TwoByteSignedInt(seq![attr]),
        ) + one(RecordType::Propvalue, BodyView::AsciiString(value)),
        EventView::StructureEnd => endel_records(needs_endel) + one(
            RecordType::EndStr,
            BodyView::NoData,
        ),
        EventView::LibraryEnd => endel_records(needs_endel) + one(
            RecordType::EndLib,
            BodyView::NoData,
        ),
    }
}

/// Whether an ENDEL is owed after the event.
pub open spec fn endel_owed_after(e: EventView, needs_endel: bool) -> bool {
    match e {
        EventView::LibraryBegin { .. } => needs_endel,
        EventView::Element(_) => true,
        EventView::Property { .. } => needs_endel,
        _ => false,
    }
}

// ------------------------------------------------------------------------------------------
// Writing records
// ------------------------------------------------------------------------------------------

/// Appends a record with the given type, data type and body bytes; the length field is
/// kept to its 16 bits.
fn write_record(sink: &mut Vec<u8>, record_type: RecordType, data_type: DataType, body: Vec<u8>)
    ensures
        final(sink)@ == old(sink)@ + (RecordHeader {
            length: record_length(body@.len()),
            record_type,
            data_type,
        }.spec_bytes() + body@),
{
    let length = ((body.len() % 65536 + 4) % 65536) as u16;
    assert(length == record_length(body@.len())) by {
        assert((body@.len() % 65536 + 4) % 65536 == (4 + body@.len()) % 65536) by (nonlinear_arith);
    }
    let h = RecordHeader::new(length, record_type, data_type).to_bytes();
    let ghost before = sink@;
    sink.push(h[0]);
    sink.push(h[1]);
    sink.push(h[2]);
    sink.push(h[3]);
    assert(sink@ =~= before + h@);
    let mut body = body;
    sink.append(&mut body);
}

proof fn lemma_flat_one_i16(v: i16)
    ensures
        flat_i16(seq![v]) == be_sbytes(v as int, 2),
{
    let s = seq![v];
    assert(s.drop_last() =~= Seq::<i16>::empty());
    assert(s.last() == v);
    assert(flat_i16(Seq::<i16>::empty()) == Seq::<u8>::empty());
    assert(flat_i16(s) == flat_i16(s.drop_last()) + be_sbytes(s.last() as int, 2));
    assert(Seq::<u8>::empty() + be_sbytes(v as int, 2) =~= be_sbytes(v as int, 2));
}

proof fn lemma_flat_one_i32(v: i32)
    ensures
        flat_i32(seq![v]) == be_sbytes(v as int, 4),
{
    let s = seq![v];
    assert(s.drop_last() =~= Seq::<i32>::empty());
    assert(s.last() == v);
    assert(flat_i32(Seq::<i32>::empty()) == Seq::<u8>::empty());
    assert(flat_i32(s) == flat_i32(s.drop_last()) + be_sbytes(s.last() as int, 4));
    assert(Seq::<u8>::empty() + be_sbytes(v as int, 4) =~= be_sbytes(v as int, 4));
}

proof fn lemma_flat_one_u16(v: u16)
    ensures
        flat_u16(seq![v]) == be_bytes(v as nat, 2),
{
    let s = seq![v];
    assert(s.drop_last() =~= Seq::<u16>::empty());
    assert(s.last() == v);
    assert(flat_u16(Seq::<u16>::empty()) == Seq::<u8>::empty());
    assert(flat_u16(s) == flat_u16(s.drop_last()) + be_bytes(s.last() as nat, 2));
    assert(Seq::<u8>::empty() + be_bytes(v as nat, 2) =~= be_bytes(v as nat, 2));
}

fn encode_i16s(v: &[i16]) -> (r: Vec<u8>)
    ensures
        r@ == flat_i16(v@),
{
    let mut r: Vec<u8> = Vec::new();
    let mut i: usize = 0;
    assert(v@.take(0) =~= Seq::<i16>::empty());
    while i < v.len()
        invariant
            i <= v.len(),
            r@ == flat_i16(v@.take(i as int)),
        decreases v.len() - i,
    {
        let b = i16_to_be(v[i]);
        r.push(b[0]);
        r.push(b[1]);
        assert(v@.take(i + 1).drop_last() =~= v@.take(i as int));
        assert(b@ =~= seq![b[0], b[1]]);
        i = i + 1;
    }
    assert(v@.take(v@.len() as int) =~= v@);
    r
}

fn encode_i32s(v: &[i32]) -> (r: Vec<u8>)
    ensures
        r@ == flat_i32(v@),
{
    let mut r: Vec<u8> = Vec::new();
    let mut i: usize = 0;
    assert(v@.take(0) =~= Seq::<i32>::empty());
    while i < v.len()
        invariant
            i <= v.len(),
            r@ == flat_i32(v@.take(i as int)),
        decreases v.len() - i,
    {
        let b = i32_to_be(v[i]);
        r.push(b[0]);
        r.push(b[1]);
        r.push(b[2]);
        r.push(b[3]);
        assert(v@.take(i + 1).drop_last() =~= v@.take(i as int));
        assert(b@ =~= seq![b[0], b[1], b[2], b[3]]);
        i = i + 1;
    }
    assert(v@.take(v@.len() as int) =~= v@);
    r
}

fn write_no_data(sink: &mut Vec<u8>, record_type: RecordType)
    ensures
        final(sink)@ == old(sink)@ + records_bytes(one(record_type, BodyView::NoData)),
{
    proof {
        lemma_records_bytes_one(OutRecord { record_type, body: BodyView::NoData });
    }
    write_record(sink, record_type, DataType::NoData, Vec::new());
}

fn write_i16(sink: &mut Vec<u8>, record_type: RecordType, value: i16)
    ensures
        final(sink)@ == old(sink)@ + records_bytes(
            one(record_type, BodyView::TwoByteSignedInt(seq![value])),
        ),
{
    proof {
        lemma_records_bytes_one(
            OutRecord { record_type, body: BodyView::TwoByteSignedInt(seq![value]) },
        );
        lemma_flat_one_i16(value);
    }
    let b = i16_to_be(value);
    let mut body: Vec<u8> = Vec::new();
    body.push(b[0]);
    body.push(b[1]);
    assert(body@ =~= b@);
    write_record(sink, record_type, DataType::TwoByteSignedInt, body);
}

fn write_i32(sink: &mut Vec<u8>, record_type: RecordType, value: i32)
    ensures
        final(sink)@ == old(sink)@ + records_bytes(
            one(record_type, BodyView::FourByteSignedInt(seq![value])),
        ),
{
    proof {
        lemma_records_bytes_one(
            OutRecord { record_type, body: BodyView::FourByteSignedInt(seq![value]) },
        );
        lemma_flat_one_i32(value);
    }
    let b = i32_to_be(value);
    let mut body: Vec<u8> = Vec::new();
    body.push(b[0]);
    body.push(b[1]);
    body.push(b[2]);
    body.push(b[3]);
    assert(body@ =~= b@);
    write_record(sink, record_type, DataType::FourByteSignedInt, body);
}

fn write_u16(sink: &mut Vec<u8>, record_type: RecordType, value: u16)
    ensures
        final(sink)@ == old(sink)@ + records_bytes(one(record_type, BodyView::BitArray(seq![value]))),
{
    proof {
        lemma_records_bytes_one(OutRecord { record_type, body: BodyView::BitArray(seq![value]) });
        lemma_flat_one_u16(value);
    }
    let b = u16_to_be(value);
    let mut body: Vec<u8> = Vec::new();
    body.push(b[0]);
    body.push(b[1]);
    assert(body@ =~= b@);
    write_record(sink, record_type, DataType::BitArray, body);
}

fn write_i16_slice(sink: &mut Vec<u8>, record_type: RecordType, values: &[i16])
    ensures
        final(sink)@ == old(sink)@ + records_bytes(
            one(record_type, BodyView::TwoByteSignedInt(values@)),
        ),
{
    proof {
        lemma_records_bytes_one(OutRecord { record_type, body: BodyView::TwoByteSignedInt(values@) });
    }
    let body = encode_i16s(values);
    write_record(sink, record_type, DataType::TwoByteSignedInt, body);
}

fn write_i32_slice(sink: &mut Vec<u8>, record_type: RecordType, values: &[i32])
    ensures
        final(sink)@ == old(sink)@ + records_bytes(
            one(record_type, BodyView::FourByteSignedInt(values@)),
        ),
{
    proof {
        lemma_records_bytes_one(OutRecord { record_type, body: BodyView::FourByteSignedInt(values@) });
    }
    let body = encode_i32s(values);
    write_record(sink, record_type, DataType::FourByteSignedInt, body);
}

fn write_str(sink: &mut Vec<u8>, record_type: RecordType, value: &str)
    ensures
        final(sink)@ == old(sink)@ + records_bytes(
            one(record_type, BodyView::AsciiString(value.spec_bytes())),
        ),
{
    proof {
        lemma_records_bytes_one(
            OutRecord { record_type, body: BodyView::AsciiString(value.spec_bytes()) },
        );
    }
    let bytes = value.as_bytes();
    let mut body = vstd::slice::slice_to_vec(bytes);
    if body.len() % 2 == 1 {
        body.push(0);
    }
    write_record(sink, record_type, DataType::AsciiString, body);
}

fn write_raw_real(sink: &mut Vec<u8>, record_type: RecordType, value: GdsEightByteReal)
    ensures
        final(sink)@ == old(sink)@ + records_bytes(
            one(record_type, BodyView::EightByteReal(seq![value.0@])),
        ),
{
    proof {
        lemma_records_bytes_one(
            OutRecord { record_type, body: BodyView::EightByteReal(seq![value.0@]) },
        );
        seq![value.0@].lemma_flatten_one_element();
    }
    let raw = value.raw();
    let mut body: Vec<u8> = Vec::new();
    let mut i: usize = 0;
    while i < 8
        invariant
            i <= 8,
            raw == value.0,
            body@ == raw@.take(i as int),
        decreases 8 - i,
    {
        body.push(raw[i]);
        assert(raw@.take(i + 1) =~= raw@.take(i as int).push(raw[i as int]));
        i = i + 1;
    }
    assert(raw@.take(8) =~= raw@);
    write_record(sink, record_type, DataType::EightByteReal, body);
}

fn write_two_reals(
    sink: &mut Vec<u8>,
    record_type: RecordType,
    a: GdsEightByteReal,
    b: GdsEightByteReal,
)
    ensures
        final(sink)@ == old(sink)@ + records_bytes(
            one(record_type, BodyView::EightByteReal(seq![a.0@, b.0@])),
        ),
{
    proof {
        lemma_records_bytes_one(
            OutRecord { record_type, body: BodyView::EightByteReal(seq![a.0@, b.0@]) },
        );
        let s = seq![a.0@, b.0@];
        assert(s.drop_first() =~= seq![b.0@]);
        seq![b.0@].lemma_flatten_one_element();
        assert(s.flatten() =~= a.0@ + b.0@);
    }
    let ra = a.raw();
    let rb = b.raw();
    let mut body: Vec<u8> = Vec::new();
    let mut i: usize = 0;
    while i < 16
        invariant
            i <= 16,
            ra == a.0,
            rb == b.0,
            body@ == (ra@ + rb@).take(i as int),
        decreases 16 - i,
    {
        if i < 8 {
            body.push(ra[i]);
        } else {
            body.push(rb[i - 8]);
        }
        assert((ra@ + rb@).take(i + 1) =~= (ra@ + rb@).take(i as int).push((ra@ + rb@)[i as int]));
        i = i + 1;
    }
    assert((ra@ + rb@).take(16) =~= ra@ + rb@);
    write_record(sink, record_type, DataType::EightByteReal, body);
}

proof fn lemma_records_bytes_empty()
    ensures
        records_bytes(Seq::empty()) == Seq::<u8>::empty(),
{
    assert(records_bytes(Seq::empty()) =~= Seq::<u8>::empty());
}

/// Extends the ghost account of written records: `sink` went from `start + bytes(acc)` to
/// `start + bytes(acc) + bytes(more)`.
proof fn lemma_extend(start: Seq<u8>, acc: Seq<OutRecord>, more: Seq<OutRecord>, now: Seq<u8>)
    requires
        now == start + records_bytes(acc) + records_bytes(more),
    ensures
        now == start + records_bytes(acc + more),
{
    lemma_records_bytes_concat(acc, more);
    assert(now =~= start + records_bytes(acc + more));
}

fn write_opt_u16(sink: &mut Vec<u8>, record_type: RecordType, o: Option<u16>)
    ensures
        final(sink)@ == old(sink)@ + records_bytes(opt_u16(record_type, o)),
{
    proof {
        lemma_records_bytes_empty();
    }
    if let Some(v) = o {
        write_u16(sink, record_type, v);
    } else {
        assert(sink@ =~= sink@ + Seq::<u8>::empty());
    }
}

fn write_opt_i16(sink: &mut Vec<u8>, record_type: RecordType, o: Option<i16>)
    ensures
        final(sink)@ == old(sink)@ + records_bytes(opt_i16(record_type, o)),
{
    proof {
        lemma_records_bytes_empty();
    }
    if let Some(v) = o {
        write_i16(sink, record_type, v);
    } else {
        assert(sink@ =~= sink@ + Seq::<u8>::empty());
    }
}

fn write_opt_i32(sink: &mut Vec<u8>, record_type: RecordType, o: Option<i32>)
    ensures
        final(sink)@ == old(sink)@ + records_bytes(opt_i32(record_type, o)),
{
    proof {
        lemma_records_bytes_empty();
    }
    if let Some(v) = o {
        write_i32(sink, record_type, v);
    } else {
        assert(sink@ =~= sink@ + Seq::<u8>::empty());
    }
}

fn write_opt_str(sink: &mut Vec<u8>, record_type: RecordType, o: Option<&str>)
    ensures
        final(sink)@ == old(sink)@ + records_bytes(opt_str(record_type, crate::events::opt_bytes(o))),
{
    proof {
        lemma_records_bytes_empty();
    }
    if let Some(v) = o {
        write_str(sink, record_type, v);
    } else {
        assert(sink@ =~= sink@ + Seq::<u8>::empty());
    }
}

fn write_opt_real(sink: &mut Vec<u8>, record_type: RecordType, o: Option<GdsEightByteReal>)
    ensures
        final(sink)@ == old(sink)@ + records_bytes(opt_real(record_type, crate::events::opt_real_bytes(o))),
{
    proof {
        lemma_records_bytes_empty();
    }
    if let Some(v) = o {
        write_raw_real(sink, record_type, v);
    } else {
        assert(sink@ =~= sink@ + Seq::<u8>::empty());
    }
}

fn write_elflags_plex(sink: &mut Vec<u8>, elflags: Option<u16>, plex: Option<i32>)
    ensures
        final(sink)@ == old(sink)@ + records_bytes(elflags_plex_records(elflags, plex)),
{
    let ghost start = sink@;
    write_opt_u16(sink, RecordType::Elflags, elflags);
    write_opt_i32(sink, RecordType::Plex, plex);
    proof {
        lemma_extend(start, opt_u16(RecordType::Elflags, elflags), opt_i32(RecordType::Plex, plex), sink@);
    }
}

fn write_strans(sink: &mut Vec<u8>, strans: &Strans)
    ensures
        final(sink)@ == old(sink)@ + records_bytes(strans_records(Some(strans@))),
{
    let ghost start = sink@;
    let flags: u16 = (if strans.reflection { 0x8000u16 } else { 0 }) + (if strans.abs_mag {
        4u16
    } else {
        0
    }) + (if strans.abs_angle { 2u16 } else { 0 });
    assert(flags == strans_flags(strans@));
    let ghost a = one(RecordType::Strans, BodyView::BitArray(seq![flags]));
    write_u16(sink, RecordType::Strans, flags);
    write_opt_real(sink, RecordType::Mag, strans.mag);
    proof {
        lemma_extend(start, a, opt_real(RecordType::Mag, crate::events::opt_real_bytes(strans.mag)), sink@);
    }
    let ghost b = a + opt_real(RecordType::Mag, crate::events::opt_real_bytes(strans.mag));
    write_opt_real(sink, RecordType::Angle, strans.angle);
    proof {
        lemma_extend(start, b, opt_real(RecordType::Angle, crate::events::opt_real_bytes(strans.angle)), sink@);
    }
}

fn write_opt_strans(sink: &mut Vec<u8>, strans: &Option<Strans>)
    ensures
        final(sink)@ == old(sink)@ + records_bytes(strans_records(crate::events::opt_strans_view(*strans))),
{
    proof {
        lemma_records_bytes_empty();
    }
    if let Some(st) = strans {
        write_strans(sink, st);
    } else {
        assert(sink@ =~= sink@ + Seq::<u8>::empty());
    }
}

proof fn lemma_xy_records_step(s: Seq<i32>)
    requires
        s.len() > xy_chunk(),
    ensures
        xy_records(s, true) == one(RecordType::Xy, BodyView::FourByteSignedInt(s.take(xy_chunk() as int)))
            + xy_records(s.skip(xy_chunk() as int), true),
{
}

proof fn lemma_xy_records_last(s: Seq<i32>)
    requires
        s.len() <= xy_chunk(),
    ensures
        xy_records(s, true) == one(RecordType::Xy, BodyView::FourByteSignedInt(s)),
{
}

/// Writes coordinates as one XY record, or, where `split` is on and they are more than one
/// record holds, as full records followed by one with the rest.
fn write_xy(sink: &mut Vec<u8>, xy: &XyCoords, split: bool)
    ensures
        final(sink)@ == old(sink)@ + records_bytes(xy_records(xy@, split)),
{
    let c = xy.as_slice();
    let chunk: usize = 2 * MAX_XY_POINTS_PER_RECORD;
    if !split || c.len() <= chunk {
        write_i32_slice(sink, RecordType::Xy, c);
        return;
    }
    let ghost start = sink@;
    let ghost whole = records_bytes(xy_records(c@, true));
    let mut pos: usize = 0;
    assert(c@.skip(0) =~= c@);
    loop
        invariant
            pos <= c@.len(),
            chunk == xy_chunk(),
            start == old(sink)@,
            c@ == xy@,
            split,
            whole == records_bytes(xy_records(c@, true)),
            start + whole == sink@ + records_bytes(xy_records(c@.skip(pos as int), true)),
        decreases c@.len() - pos,
    {
        let rest = c.len() - pos;
        let ghost tail = c@.skip(pos as int);
        if rest <= chunk {
            let piece = vstd::slice::slice_subrange(c, pos, c.len());
            assert(piece@ =~= tail);
            let ghost before = sink@;
            write_i32_slice(sink, RecordType::Xy, piece);
            proof {
                lemma_xy_records_last(tail);
            }
            assert(sink@ == start + whole);
            return;
        }
        let piece = vstd::slice::slice_subrange(c, pos, pos + chunk);
        assert(piece@ =~= tail.take(xy_chunk() as int));
        assert(tail.skip(xy_chunk() as int) =~= c@.skip((pos + chunk) as int));
        let ghost before = sink@;
        write_i32_slice(sink, RecordType::Xy, piece);
        proof {
            lemma_xy_records_step(tail);
            lemma_records_bytes_concat(
                one(RecordType::Xy, BodyView::FourByteSignedInt(piece@)),
                xy_records(c@.skip((pos + chunk) as int), true),
            );
        }
        pos = pos + chunk;
    }
}

fn write_colrow(sink: &mut Vec<u8>, colrow: (i16, i16))
    ensures
        final(sink)@ == old(sink)@ + records_bytes(
            one(RecordType::Colrow, BodyView::TwoByteSignedInt(seq![colrow.0, colrow.1])),
        ),
{
    let v: [i16; 2] = [colrow.0, colrow.1];
    assert(v@ =~= seq![colrow.0, colrow.1]);
    write_i16_slice(sink, RecordType::Colrow, &v);
}

fn write_boundary(sink: &mut Vec<u8>, b: &Boundary, split: bool)
    ensures
        final(sink)@ == old(sink)@ + records_bytes(element_records(ElementView::Boundary { elflags: b.elflags, plex: b.plex, layer: b.layer, datatype: b.datatype, xy: b.xy@ }, split)),
{
    let ghost start = sink@;
    let ghost mut acc: Seq<OutRecord> = Seq::empty();
    proof {
        lemma_records_bytes_empty();
        assert(sink@ =~= start + records_bytes(acc));
    }
    write_no_data(sink, RecordType::Boundary);
    proof {
        lemma_extend(start, acc, one(RecordType::Boundary, BodyView::NoData), sink@);
        acc = acc + one(RecordType::Boundary, BodyView::NoData);
    }
    write_elflags_plex(sink, b.elflags, b.plex);
    proof {
        lemma_extend(start, acc, elflags_plex_records(b.elflags, b.plex), sink@);
        acc = acc + elflags_plex_records(b.elflags, b.plex);
    }
    write_i16(sink, RecordType::Layer, b.layer);
    proof {
        lemma_extend(start, acc, one(RecordType::Layer, BodyView::TwoByteSignedInt(seq![b.layer])), sink@);
        acc = acc + one(RecordType::Layer, BodyView::TwoByteSignedInt(seq![b.layer]));
    }
    write_i16(sink, RecordType::Datatype, b.datatype);
    proof {
        lemma_extend(start, acc, one(RecordType::Datatype, BodyView::TwoByteSignedInt(seq![b.datatype])), sink@);
        acc = acc + one(RecordType::Datatype, BodyView::TwoByteSignedInt(seq![b.datatype]));
    }
    write_xy(sink, &b.xy, split);
    proof {
        lemma_extend(start, acc, xy_records(b.xy@, split), sink@);
        acc = acc + xy_records(b.xy@, split);
    }
    assert(acc =~= element_records(ElementView::Boundary { elflags: b.elflags, plex: b.plex, layer: b.layer, datatype: b.datatype, xy: b.xy@ }, split));
}

fn write_path(sink: &mut Vec<u8>, p: &Path, split: bool)
    ensures
        final(sink)@ == old(sink)@ + records_bytes(element_records(ElementView::Path { elflags: p.elflags, plex: p.plex, layer: p.layer, datatype: p.datatype, pathtype: p.pathtype, width: p.width, bgn_extn: p.bgn_extn, end_extn: p.end_extn, xy: p.xy@ }, split)),
{
    let ghost start = sink@;
    let ghost mut acc: Seq<OutRecord> = Seq::empty();
    proof {
        lemma_records_bytes_empty();
        assert(sink@ =~= start + records_bytes(acc));
    }
    write_no_data(sink, RecordType::Path);
    proof {
        lemma_extend(start, acc, one(RecordType::Path, BodyView::NoData), sink@);
        acc = acc + one(RecordType::Path, BodyView::NoData);
    }
    write_elflags_plex(sink, p.elflags, p.plex);
    proof {
        lemma_extend(start, acc, elflags_plex_records(p.elflags, p.plex), sink@);
        acc = acc + elflags_plex_records(p.elflags, p.plex);
    }
    write_i16(sink, RecordType::Layer, p.layer);
    proof {
        lemma_extend(start, acc, one(RecordType::Layer, BodyView::TwoByteSignedInt(seq![p.layer])), sink@);
        acc = acc + one(RecordType::Layer, BodyView::TwoByteSignedInt(seq![p.layer]));
    }
    write_i16(sink, RecordType::Datatype, p.datatype);
    proof {
        lemma_extend(start, acc, one(RecordType::Datatype, BodyView::TwoByteSignedInt(seq![p.datatype])), sink@);
        acc = acc + one(RecordType::Datatype, BodyView::TwoByteSignedInt(seq![p.datatype]));
    }
    write_opt_i16(sink, RecordType::Pathtype, p.pathtype);
    proof {
        lemma_extend(start, acc, opt_i16(RecordType::Pathtype, p.pathtype), sink@);
        acc = acc + opt_i16(RecordType::Pathtype, p.pathtype);
    }
    write_opt_i32(sink, RecordType::Width, p.width);
    proof {
        lemma_extend(start, acc, opt_i32(RecordType::Width, p.width), sink@);
        acc = acc + opt_i32(RecordType::Width, p.width);
    }
    write_opt_i32(sink, RecordType::BgnExtn, p.bgn_extn);
    proof {
        lemma_extend(start, acc, opt_i32(RecordType::BgnExtn, p.bgn_extn), sink@);
        acc = acc + opt_i32(RecordType::BgnExtn, p.bgn_extn);
    }
    write_opt_i32(sink, RecordType::EndExtn, p.end_extn);
    proof {
        lemma_extend(start, acc, opt_i32(RecordType::EndExtn, p.end_extn), sink@);
        acc = acc + opt_i32(RecordType::EndExtn, p.end_extn);
    }
    write_xy(sink, &p.xy, split);
    proof {
        lemma_extend(start, acc, xy_records(p.xy@, split), sink@);
        acc = acc + xy_records(p.xy@, split);
    }
    assert(acc =~= element_records(ElementView::Path { elflags: p.elflags, plex: p.plex, layer: p.layer, datatype: p.datatype, pathtype: p.pathtype, width: p.width, bgn_extn: p.bgn_extn, end_extn: p.end_extn, xy: p.xy@ }, split));
}

fn write_sref(sink: &mut Vec<u8>, s: &Sref<'_>, split: bool)
    ensures
        final(sink)@ == old(sink)@ + records_bytes(element_records(ElementView::Sref { elflags: s.elflags, plex: s.plex, sname: s.sname.spec_bytes(), strans: crate::events::opt_strans_view(s.strans), xy: s.xy@ }, split)),
{
    let ghost start = sink@;
    let ghost mut acc: Seq<OutRecord> = Seq::empty();
    proof {
        lemma_records_bytes_empty();
        assert(sink@ =~= start + records_bytes(acc));
    }
    write_no_data(sink, RecordType::Sref);
    proof {
        lemma_extend(start, acc, one(RecordType::Sref, BodyView::NoData), sink@);
        acc = acc + one(RecordType::Sref, BodyView::NoData);
    }
    write_elflags_plex(sink, s.elflags, s.plex);
    proof {
        lemma_extend(start, acc, elflags_plex_records(s.elflags, s.plex), sink@);
        acc = acc + elflags_plex_records(s.elflags, s.plex);
    }
    write_str(sink, RecordType::Sname, s.sname);
    proof {
        lemma_extend(start, acc, one(RecordType::Sname, BodyView::AsciiString(s.sname.spec_bytes())), sink@);
        acc = acc + one(RecordType::Sname, BodyView::AsciiString(s.sname.spec_bytes()));
    }
    write_opt_strans(sink, &s.strans);
    proof {
        lemma_extend(start, acc, strans_records(crate::events::opt_strans_view(s.strans)), sink@);
        acc = acc + strans_records(crate::events::opt_strans_view(s.strans));
    }
    write_xy(sink, &s.xy, split);
    proof {
        lemma_extend(start, acc, xy_records(s.xy@, split), sink@);
        acc = acc + xy_records(s.xy@, split);
    }
    assert(acc =~= element_records(ElementView::Sref { elflags: s.elflags, plex: s.plex, sname: s.sname.spec_bytes(), strans: crate::events::opt_strans_view(s.strans), xy: s.xy@ }, split));
}

fn write_aref(sink: &mut Vec<u8>, a: &Aref<'_>, split: bool)
    ensures
        final(sink)@ == old(sink)@ + records_bytes(element_records(ElementView::Aref { elflags: a.elflags, plex: a.plex, sname: a.sname.spec_bytes(), strans: crate::events::opt_strans_view(a.strans), colrow: a.colrow, xy: a.xy@ }, split)),
{
    let ghost start = sink@;
    let ghost mut acc: Seq<OutRecord> = Seq::empty();
    proof {
        lemma_records_bytes_empty();
        assert(sink@ =~= start + records_bytes(acc));
    }
    write_no_data(sink, RecordType::Aref);
    proof {
        lemma_extend(start, acc, one(RecordType::Aref, BodyView::NoData), sink@);
        acc = acc + one(RecordType::Aref, BodyView::NoData);
    }
    write_elflags_plex(sink, a.elflags, a.plex);
    proof {
        lemma_extend(start, acc, elflags_plex_records(a.elflags, a.plex), sink@);
        acc = acc + elflags_plex_records(a.elflags, a.plex);
    }
    write_str(sink, RecordType::Sname, a.sname);
    proof {
        lemma_extend(start, acc, one(RecordType::Sname, BodyView::AsciiString(a.sname.spec_bytes())), sink@);
        acc = acc + one(RecordType::Sname, BodyView::AsciiString(a.sname.spec_bytes()));
    }
    write_opt_strans(sink, &a.strans);
    proof {
        lemma_extend(start, acc, strans_records(crate::events::opt_strans_view(a.strans)), sink@);
        acc = acc + strans_records(crate::events::opt_strans_view(a.strans));
    }
    write_colrow(sink, a.colrow);
    proof {
        lemma_extend(start, acc, one(RecordType::Colrow, BodyView::TwoByteSignedInt(seq![a.colrow.0, a.colrow.1])), sink@);
        acc = acc + one(RecordType::Colrow, BodyView::TwoByteSignedInt(seq![a.colrow.0, a.colrow.1]));
    }
    write_xy(sink, &a.xy, split);
    proof {
        lemma_extend(start, acc, xy_records(a.xy@, split), sink@);
        acc = acc + xy_records(a.xy@, split);
    }
    assert(acc =~= element_records(ElementView::Aref { elflags: a.elflags, plex: a.plex, sname: a.sname.spec_bytes(), strans: crate::events::opt_strans_view(a.strans), colrow: a.colrow, xy: a.xy@ }, split));
}

fn write_text(sink: &mut Vec<u8>, t: &Text<'_>, split: bool)
    ensures
        final(sink)@ == old(sink)@ + records_bytes(element_records(ElementView::Text { elflags: t.elflags, plex: t.plex, layer: t.layer, texttype: t.texttype, presentation: t.presentation, pathtype: t.pathtype, width: t.width, strans: crate::events::opt_strans_view(t.strans), xy: t.xy@, string: t.string.spec_bytes() }, split)),
{
    let ghost start = sink@;
    let ghost mut acc: Seq<OutRecord> = Seq::empty();
    proof {
        lemma_records_bytes_empty();
        assert(sink@ =~= start + records_bytes(acc));
    }
    write_no_data(sink, RecordType::Text);
    proof {
        lemma_extend(start, acc, one(RecordType::Text, BodyView::NoData), sink@);
        acc = acc + one(RecordType::Text, BodyView::NoData);
    }
    write_elflags_plex(sink, t.elflags, t.plex);
    proof {
        lemma_extend(start, acc, elflags_plex_records(t.elflags, t.plex), sink@);
        acc = acc + elflags_plex_records(t.elflags, t.plex);
    }
    write_i16(sink, RecordType::Layer, t.layer);
    proof {
        lemma_extend(start, acc, one(RecordType::Layer, BodyView::TwoByteSignedInt(seq![t.layer])), sink@);
        acc = acc + one(RecordType::Layer, BodyView::TwoByteSignedInt(seq![t.layer]));
    }
    write_i16(sink, RecordType::TextType, t.texttype);
    proof {
        lemma_extend(start, acc, one(RecordType::TextType, BodyView::TwoByteSignedInt(seq![t.texttype])), sink@);
        acc = acc + one(RecordType::TextType, BodyView::TwoByteSignedInt(seq![t.texttype]));
    }
    write_opt_u16(sink, RecordType::Presentation, t.presentation);
    proof {
        lemma_extend(start, acc, opt_u16(RecordType::Presentation, t.presentation), sink@);
        acc = acc + opt_u16(RecordType::Presentation, t.presentation);
    }
    write_opt_i16(sink, RecordType::Pathtype, t.pathtype);
    proof {
        lemma_extend(start, acc, opt_i16(RecordType::Pathtype, t.pathtype), sink@);
        acc = acc + opt_i16(RecordType::Pathtype, t.pathtype);
    }
    write_opt_i32(sink, RecordType::Width, t.width);
    proof {
        lemma_extend(start, acc, opt_i32(RecordType::Width, t.width), sink@);
        acc = acc + opt_i32(RecordType::Width, t.width);
    }
    write_opt_strans(sink, &t.strans);
    proof {
        lemma_extend(start, acc, strans_records(crate::events::opt_strans_view(t.strans)), sink@);
        acc = acc + strans_records(crate::events::opt_strans_view(t.strans));
    }
    write_xy(sink, &t.xy, split);
    proof {
        lemma_extend(start, acc, xy_records(t.xy@, split), sink@);
        acc = acc + xy_records(t.xy@, split);
    }
    write_str(sink, RecordType::String, t.string);
    proof {
        lemma_extend(start, acc, one(RecordType::String, BodyView::AsciiString(t.string.spec_bytes())), sink@);
        acc = acc + one(RecordType::String, BodyView::AsciiString(t.string.spec_bytes()));
    }
    assert(acc =~= element_records(ElementView::Text { elflags: t.elflags, plex: t.plex, layer: t.layer, texttype: t.texttype, presentation: t.presentation, pathtype: t.pathtype, width: t.width, strans: crate::events::opt_strans_view(t.strans), xy: t.xy@, string: t.string.spec_bytes() }, split));
}

fn write_node(sink: &mut Vec<u8>, n: &Node, split: bool)
    ensures
        final(sink)@ == old(sink)@ + records_bytes(element_records(ElementView::Node { elflags: n.elflags, plex: n.plex, layer: n.layer, nodetype: n.nodetype, xy: n.xy@ }, split)),
{
    let ghost start = sink@;
    let ghost mut acc: Seq<OutRecord> = Seq::empty();
    proof {
        lemma_records_bytes_empty();
        assert(sink@ =~= start + records_bytes(acc));
    }
    write_no_data(sink, RecordType::Node);
    proof {
        lemma_extend(start, acc, one(RecordType::Node, BodyView::NoData), sink@);
        acc = acc + one(RecordType::Node, BodyView::NoData);
    }
    write_elflags_plex(sink, n.elflags, n.plex);
    proof {
        lemma_extend(start, acc, elflags_plex_records(n.elflags, n.plex), sink@);
        acc = acc + elflags_plex_records(n.elflags, n.plex);
    }
    write_i16(sink, RecordType::Layer, n.layer);
    proof {
        lemma_extend(start, acc, one(RecordType::Layer, BodyView::TwoByteSignedInt(seq![n.layer])), sink@);
        acc = acc + one(RecordType::Layer, BodyView::TwoByteSignedInt(seq![n.layer]));
    }
    write_i16(sink, RecordType::Nodetype, n.nodetype);
    proof {
        lemma_extend(start, acc, one(RecordType::Nodetype, BodyView::TwoByteSignedInt(seq![n.nodetype])), sink@);
        acc = acc + one(RecordType::Nodetype, BodyView::TwoByteSignedInt(seq![n.nodetype]));
    }
    write_xy(sink, &n.xy, split);
    proof {
        lemma_extend(start, acc, xy_records(n.xy@, split), sink@);
        acc = acc + xy_records(n.xy@, split);
    }
    assert(acc =~= element_records(ElementView::Node { elflags: n.elflags, plex: n.plex, layer: n.layer, nodetype: n.nodetype, xy: n.xy@ }, split));
}

fn write_gds_box(sink: &mut Vec<u8>, b: &GdsBox, split: bool)
    ensures
        final(sink)@ == old(sink)@ + records_bytes(element_records(ElementView::Box { elflags: b.elflags, plex: b.plex, layer: b.layer, boxtype: b.boxtype, xy: b.xy@ }, split)),
{
    let ghost start = sink@;
    let ghost mut acc: Seq<OutRecord> = Seq::empty();
    proof {
        lemma_records_bytes_empty();
        assert(sink@ =~= start + records_bytes(acc));
    }
    write_no_data(sink, RecordType::Box);
    proof {
        lemma_extend(start, acc, one(RecordType::Box, BodyView::NoData), sink@);
        acc = acc + one(RecordType::Box, BodyView::NoData);
    }
    write_elflags_plex(sink, b.elflags, b.plex);
    proof {
        lemma_extend(start, acc, elflags_plex_records(b.elflags, b.plex), sink@);
        acc = acc + elflags_plex_records(b.elflags, b.plex);
    }
    write_i16(sink, RecordType::Layer, b.layer);
    proof {
        lemma_extend(start, acc, one(RecordType::Layer, BodyView::TwoByteSignedInt(seq![b.layer])), sink@);
        acc = acc + one(RecordType::Layer, BodyView::TwoByteSignedInt(seq![b.layer]));
    }
    write_i16(sink, RecordType::BoxType, b.boxtype);
    proof {
        lemma_extend(start, acc, one(RecordType::BoxType, BodyView::TwoByteSignedInt(seq![b.boxtype])), sink@);
        acc = acc + one(RecordType::BoxType, BodyView::TwoByteSignedInt(seq![b.boxtype]));
    }
    write_xy(sink, &b.xy, split);
    proof {
        lemma_extend(start, acc, xy_records(b.xy@, split), sink@);
        acc = acc + xy_records(b.xy@, split);
    }
    assert(acc =~= element_records(ElementView::Box { elflags: b.elflags, plex: b.plex, layer: b.layer, boxtype: b.boxtype, xy: b.xy@ }, split));
}

/// Records written for a sequence of events, starting in the given ENDEL state.
pub open spec fn events_records(evs: Seq<EventView>, needs_endel: bool, split: bool) -> Seq<
    OutRecord,
>
    decreases evs.len(),
{
    if evs.len() == 0 {
        Seq::empty()
    } else {
        event_records(evs[0], needs_endel, split) + events_records(
            evs.drop_first(),
            endel_owed_after(evs[0], needs_endel),
            split,
        )
    }
}

/// ENDEL state after a sequence of events.
pub open spec fn endel_owed_after_all(evs: Seq<EventView>, needs_endel: bool) -> bool
    decreases evs.len(),
{
    if evs.len() == 0 {
        needs_endel
    } else {
        endel_owed_after_all(evs.drop_first(), endel_owed_after(evs[0], needs_endel))
    }
}

/// Views of a sequence of events.
pub open spec fn events_view<'data>(evs: Seq<GdsEvent<'data>>) -> Seq<EventView> {
    evs.map_values(|e: GdsEvent<'data>| e@)
}

/// Writes events as GDSII records into a byte buffer.
///
/// ENDEL is written late, before whatever follows an element's properties, so that the
/// properties stay inside their element.
#[derive(Debug)]
pub struct GdsWriter {
    sink: Vec<u8>,
    needs_endel: bool,
    multi_xy: bool,
}

impl GdsWriter {
    /// Everything written so far, after the buffer's initial bytes.
    pub closed spec fn bytes(&self) -> Seq<u8> {
        self.sink@
    }

    /// An element was written and its ENDEL is still owed.
    pub closed spec fn endel_owed(&self) -> bool {
        self.needs_endel
    }

    /// Coordinate lists longer than one XY record holds are split over several records.
    pub closed spec fn splits_xy(&self) -> bool {
        self.multi_xy
    }

    /// A writer that appends to `sink`; no splitting of long coordinate lists.
    pub fn new(sink: Vec<u8>) -> (r: Self)
        ensures
            r.bytes() == sink@,
            !r.endel_owed(),
            !r.splits_xy(),
    {
        GdsWriter { sink, needs_endel: false, multi_xy: false }
    }

    /// The same writer, splitting long coordinate lists over several XY records or not.
    pub fn with_multi_xy(self, multi_xy: bool) -> (r: Self)
        ensures
            r.bytes() == self.bytes(),
            r.endel_owed() == self.endel_owed(),
            r.splits_xy() == multi_xy,
    {
        GdsWriter { sink: self.sink, needs_endel: self.needs_endel, multi_xy }
    }

    /// The buffer with everything written.
    pub fn into_inner(self) -> (r: Vec<u8>)
        ensures
            r@ == self.bytes(),
    {
        self.sink
    }

    /// Hands over the bytes written so far; the writer goes on with an empty buffer, and
    /// whether an ENDEL is owed stays as it was.
    pub fn take_written(&mut self) -> (r: Vec<u8>)
        ensures
            r@ == old(self).bytes(),
            final(self).bytes() == Seq::<u8>::empty(),
            final(self).endel_owed() == old(self).endel_owed(),
            final(self).splits_xy() == old(self).splits_xy(),
    {
        let mut out: Vec<u8> = Vec::new();
        std::mem::swap(&mut out, &mut self.sink);
        out
    }

    fn flush_endel(&mut self)
        ensures
            final(self).bytes() == old(self).bytes() + records_bytes(
                endel_records(old(self).endel_owed()),
            ),
            !final(self).endel_owed(),
            final(self).splits_xy() == old(self).splits_xy(),
    {
        proof {
            lemma_records_bytes_empty();
        }
        if self.needs_endel {
            write_no_data(&mut self.sink, RecordType::Endel);
            self.needs_endel = false;
        } else {
            assert(self.sink@ =~= self.sink@ + Seq::<u8>::empty());
        }
    }

    fn write_library_begin(&mut self, lib: &LibraryBegin<'_>)
        ensures
            final(self).bytes() == old(self).bytes() + records_bytes(
                event_records(lib.event_view(), old(self).endel_owed(), old(self).splits_xy()),
            ),
            final(self).endel_owed() == old(self).endel_owed(),
            final(self).splits_xy() == old(self).splits_xy(),
    {
        let ghost start = self.sink@;
        let ghost mut acc: Seq<OutRecord> = Seq::empty();
        proof {
            lemma_records_bytes_empty();
            assert(self.sink@ =~= start + records_bytes(acc));
        }
        write_i16(&mut self.sink, RecordType::Header, lib.version);
        proof {
            let more = one(RecordType::Header, BodyView::TwoByteSignedInt(seq![lib.version]));
            lemma_extend(start, acc, more, self.sink@);
            acc = acc + more;
        }
        write_i16_slice(&mut self.sink, RecordType::BgnLib, lib.timestamps.as_slice());
        proof {
            let more = one(RecordType::BgnLib, BodyView::TwoByteSignedInt(lib.timestamps@));
            lemma_extend(start, acc, more, self.sink@);
            acc = acc + more;
        }
        write_str(&mut self.sink, RecordType::LibName, lib.lib_name);
        proof {
            let more = one(RecordType::LibName, BodyView::AsciiString(lib.lib_name.spec_bytes()));
            lemma_extend(start, acc, more, self.sink@);
            acc = acc + more;
        }
        write_opt_str(&mut self.sink, RecordType::Reflibs, lib.reflibs);
        proof {
            let more = opt_str(RecordType::Reflibs, crate::events::opt_bytes(lib.reflibs));
            lemma_extend(start, acc, more, self.sink@);
            acc = acc + more;
        }
        write_opt_str(&mut self.sink, RecordType::Fonts, lib.fonts);
        proof {
            let more = opt_str(RecordType::Fonts, crate::events::opt_bytes(lib.fonts));
            lemma_extend(start, acc, more, self.sink@);
            acc = acc + more;
        }
        write_opt_str(&mut self.sink, RecordType::Attrtable, lib.attrtable);
        proof {
            let more = opt_str(RecordType::Attrtable, crate::events::opt_bytes(lib.attrtable));
            lemma_extend(start, acc, more, self.sink@);
            acc = acc + more;
        }
        write_opt_i16(&mut self.sink, RecordType::Generations, lib.generations);
        proof {
            let more = opt_i16(RecordType::Generations, lib.generations);
            lemma_extend(start, acc, more, self.sink@);
            acc = acc + more;
        }
        write_two_reals(&mut self.sink, RecordType::Units, lib.db_in_user, lib.db_in_meters);
        proof {
            let more = one(
                RecordType::Units,
                BodyView::EightByteReal(seq![lib.db_in_user.0@, lib.db_in_meters.0@]),
            );
            lemma_extend(start, acc, more, self.sink@);
            acc = acc + more;
        }
        assert(acc =~= event_records(
            lib.event_view(),
            old(self).endel_owed(),
            old(self).splits_xy(),
        ));
    }

    fn write_structure_begin(&mut self, s: &StructureBegin<'_>)
        ensures
            final(self).bytes() == old(self).bytes() + records_bytes(
                one(RecordType::BgnStr, BodyView::TwoByteSignedInt(s.timestamps@)) + one(
                    RecordType::StrName,
                    BodyView::AsciiString(s.name.spec_bytes()),
                ),
            ),
            final(self).endel_owed() == old(self).endel_owed(),
            final(self).splits_xy() == old(self).splits_xy(),
    {
        let ghost start = self.sink@;
        write_i16_slice(&mut self.sink, RecordType::BgnStr, s.timestamps.as_slice());
        write_str(&mut self.sink, RecordType::StrName, s.name);
        proof {
            lemma_extend(
                start,
                one(RecordType::BgnStr, BodyView::TwoByteSignedInt(s.timestamps@)),
                one(RecordType::StrName, BodyView::AsciiString(s.name.spec_bytes())),
                self.sink@,
            );
        }
    }

    fn write_element(&mut self, elem: &Element<'_>)
        ensures
            final(self).bytes() == old(self).bytes() + records_bytes(
                element_records(elem@, old(self).splits_xy()),
            ),
            final(self).endel_owed() == old(self).endel_owed(),
            final(self).splits_xy() == old(self).splits_xy(),
    {
        let split = self.multi_xy;
        match elem {
            Element::Boundary(b) => write_boundary(&mut self.sink, b, split),
            Element::Path(p) => write_path(&mut self.sink, p, split),
            Element::Sref(s) => write_sref(&mut self.sink, s, split),
            Element::Aref(a) => write_aref(&mut self.sink, a, split),
            Element::Text(t) => write_text(&mut self.sink, t, split),
            Element::Node(n) => write_node(&mut self.sink, n, split),
            Element::Box(b) => write_gds_box(&mut self.sink, b, split),
        }
    }

    /// Writes one event as its records: an ENDEL first where one is owed and the event is
    /// not a property (nor the library header), then the event's own records.
    pub fn write_event(&mut self, event: &GdsEvent<'_>)
        ensures
            final(self).bytes() == old(self).bytes() + records_bytes(
                event_records(event@, old(self).endel_owed(), old(self).splits_xy()),
            ),
            final(self).endel_owed() == endel_owed_after(event@, old(self).endel_owed()),
            final(self).splits_xy() == old(self).splits_xy(),
    {
        let ghost start = self.sink@;
        let ghost needs = self.needs_endel;
        match event {
            GdsEvent::LibraryBegin(lib) => {
                self.write_library_begin(lib);
                proof {
                    assert(event@ == lib.event_view());
                }
            },
            GdsEvent::StructureBegin(s) => {
                self.flush_endel();
                self.write_structure_begin(s);
                proof {
                    lemma_extend(
                        start,
                        endel_records(needs),
                        one(RecordType::BgnStr, BodyView::TwoByteSignedInt(s.timestamps@)) + one(
                            RecordType::StrName,
                            BodyView::AsciiString(s.name.spec_bytes()),
                        ),
                        self.sink@,
                    );
                    assert(event_records(event@, needs, self.multi_xy) =~= endel_records(needs) + (
                    one(RecordType::BgnStr, BodyView::TwoByteSignedInt(s.timestamps@)) + one(
                        RecordType::StrName,
                        BodyView::AsciiString(s.name.spec_bytes()),
                    )));
                }
            },
            GdsEvent::Element(elem) => {
                self.flush_endel();
                self.write_element(elem);
                self.needs_endel = true;
                proof {
                    lemma_extend(
                        start,
                        endel_records(needs),
                        element_records(elem@, self.multi_xy),
                        self.sink@,
                    );
                }
            },
            GdsEvent::Property(prop) => {
                write_i16(&mut self.sink, RecordType::Propattr, prop.attr);
                write_str(&mut self.sink, RecordType::Propvalue, prop.value);
                proof {
                    lemma_extend(
                        start,
                        one(RecordType::Propattr, BodyView::TwoByteSignedInt(seq![prop.attr])),
                        one(RecordType::Propvalue, BodyView::AsciiString(prop.value.spec_bytes())),
                        self.sink@,
                    );
                }
            },
            GdsEvent::StructureEnd => {
                self.flush_endel();
                write_no_data(&mut self.sink, RecordType::EndStr);
                proof {
                    lemma_extend(
                        start,
                        endel_records(needs),
                        one(RecordType::EndStr, BodyView::NoData),
                        self.sink@,
                    );
                }
            },
            GdsEvent::LibraryEnd => {
                self.flush_endel();
                write_no_data(&mut self.sink, RecordType::EndLib);
                proof {
                    lemma_extend(
                        start,
                        endel_records(needs),
                        one(RecordType::EndLib, BodyView::NoData),
                        self.sink@,
                    );
                }
            },
        }
    }
}

proof fn lemma_write_all_step(
    all: Seq<EventView>,
    i: int,
    before: Seq<u8>,
    after: Seq<u8>,
    owed: bool,
)
    requires
        0 <= i < all.len(),
        after == before + records_bytes(event_records(all[i], owed, false)),
    ensures
        before + records_bytes(events_records(all.skip(i), owed, false)) == after + records_bytes(
            events_records(all.skip(i + 1), endel_owed_after(all[i], owed), false),
        ),
{
    let tail = all.skip(i);
    assert(tail[0] == all[i]);
    assert(tail.drop_first() =~= all.skip(i + 1));
    lemma_records_bytes_concat(
        event_records(tail[0], owed, false),
        events_records(tail.drop_first(), endel_owed_after(tail[0], owed), false),
    );
}

/// Writes a whole event stream after the bytes of `sink`, with a fresh writer, and gives
/// the buffer back.
pub fn write_all<'data>(sink: Vec<u8>, events: &[GdsEvent<'data>]) -> (r: Vec<u8>)
    ensures
        r@ == sink@ + records_bytes(events_records(events_view(events@), false, false)),
{
    let mut writer = GdsWriter::new(sink);
    let ghost all = events_view(events@);
    let mut i: usize = 0;
    proof {
        lemma_records_bytes_empty();
        assert(all.skip(0) =~= all);
    }
    while i < events.len()
        invariant
            i <= events@.len(),
            all == events_view(events@),
            !writer.splits_xy(),
            sink@ + records_bytes(events_records(all, false, false)) == writer.bytes()
                + records_bytes(events_records(all.skip(i as int), writer.endel_owed(), false)),
        decreases events@.len() - i,
    {
        let ghost before = writer.bytes();
        let ghost owed = writer.endel_owed();
        let ghost tail = all.skip(i as int);
        writer.write_event(&events[i]);
        proof {
            lemma_write_all_step(all, i as int, before, writer.bytes(), owed);
        }
        i = i + 1;
    }
    proof {
        assert(all.skip(i as int) =~= Seq::<EventView>::empty());
    }
    writer.into_inner()
}

} // verus!
