//! Well-formed event streams, and the law that the parser reads back, event for event,
//! what the writer writes of them.
use crate::events::{ElementView, EventView, StransView};
use crate::parser::{
    sp_elflags_plex, sp_expect, sp_more_xy, sp_next, sp_opt_i16,
    sp_opt_i32, sp_opt_real, sp_opt_u16, sp_req_i16, sp_req_str, sp_strans, sp_xy,
    strans_of, sp_advance, sp_library_begin, sp_library_item, sp_library_options, sp_property, sp_aref, sp_boundary, sp_element_end, sp_gds_box, sp_node, sp_path, sp_sref, sp_structure_item, sp_text,
    ParseErrorView, ParseState, RecordStream,
};
use crate::reader::{spec_records, BodyView, RecView, RecordErrorView};
use crate::roundtrip::{
    body_fits, reads_back, lemma_flat_i16, lemma_flat_i32, lemma_flat_u16, lemma_flatten_chunks,
    lemma_read_written_records, rec_view_of, records_fit, stream_of,
};
use crate::types::RecordType;
use crate::writer::{
    element_records, elflags_plex_records, endel_owed_after, endel_records, event_records,
    events_records, lemma_records_bytes_one, one, opt_i16, opt_i32, opt_real, opt_str, opt_u16,
    records_bytes, strans_flags, strans_records, xy_chunk, xy_records, OutRecord,
};
use vstd::prelude::*;
use vstd::utf8::valid_utf8;

verus! {



// ------------------------------------------------------------------------------------------
// What fits in the records the writer writes
// ------------------------------------------------------------------------------------------

/// A string that one record carries and reading gives back: UTF-8, at most 65530 bytes,
/// and not of even length ending in a null byte.
pub open spec fn str_fits(s: Seq<u8>) -> bool {
    valid_utf8(s) && s.len() <= 65530 && reads_back(s)
}

/// An optional string that fits.
pub open spec fn opt_str_fits(o: Option<Seq<u8>>) -> bool {
    match o {
        Some(s) => str_fits(s),
        None => true,
    }
}

/// The raw bytes of an eight-byte real.
pub open spec fn real_fits(r: Seq<u8>) -> bool {
    r.len() == 8
}

/// An optional real that fits.
pub open spec fn opt_real_fits(o: Option<Seq<u8>>) -> bool {
    match o {
        Some(r) => real_fits(r),
        None => true,
    }
}

/// Timestamps that fit in one record.
pub open spec fn stamps_fit(t: Seq<i16>) -> bool {
    t.len() <= 32765
}

/// Coordinates that fit in one XY record, or in several where splitting is on.
pub open spec fn xy_fits(xy: Seq<i32>, split: bool) -> bool {
    split || xy.len() <= xy_chunk()
}

/// A transformation whose reals fit.
pub open spec fn strans_fits(o: Option<StransView>) -> bool {
    match o {
        Some(s) => opt_real_fits(s.mag) && opt_real_fits(s.angle),
        None => true,
    }
}

/// An element whose values all fit in their records.
pub open spec fn element_fits(e: ElementView, split: bool) -> bool {
    match e {
        ElementView::Boundary { xy, .. } => xy_fits(xy, split),
        ElementView::Path { xy, .. } => xy_fits(xy, split),
        ElementView::Sref { sname, strans, xy, .. } => str_fits(sname) && strans_fits(strans)
            && xy_fits(xy, split),
        ElementView::Aref { sname, strans, xy, .. } => str_fits(sname) && strans_fits(strans)
            && xy_fits(xy, split),
        ElementView::Text { strans, xy, string, .. } => strans_fits(strans) && xy_fits(xy, split)
            && str_fits(string),
        ElementView::Node { xy, .. } => xy_fits(xy, split),
        ElementView::Box { xy, .. } => xy_fits(xy, split),
    }
}

/// An event whose values all fit in their records.
pub open spec fn event_fits(e: EventView, split: bool) -> bool {
    match e {
        EventView::LibraryBegin {
            timestamps,
            lib_name,
            db_in_user,
            db_in_meters,
            reflibs,
            fonts,
            attrtable,
            ..
        } => stamps_fit(timestamps) && str_fits(lib_name) && real_fits(db_in_user) && real_fits(
            db_in_meters,
        ) && opt_str_fits(reflibs) && opt_str_fits(fonts) && opt_str_fits(attrtable),
        EventView::StructureBegin { timestamps, name } => stamps_fit(timestamps) && str_fits(name),
        EventView::Element(el) => element_fits(el, split),
        EventView::Property { value, .. } => str_fits(value),
        _ => true,
    }
}

// ------------------------------------------------------------------------------------------
// Streams of written records
// ------------------------------------------------------------------------------------------

/// The record read back from a written record of type `t` with body `b`.
pub open spec fn rv(t: RecordType, b: BodyView) -> RecView {
    rec_view_of(OutRecord { record_type: t, body: b })
}

/// The stream does not start with a record of type `t`, nor with an error.
pub open spec fn next_not(u: RecordStream, t: RecordType) -> bool {
    u.len() == 0 || (u[0] is Ok && u[0]->Ok_0.header.record_type != t)
}

/// The stream of two runs of records, before a stream `u`, is the first run's stream
/// before the second's before `u`.
pub proof fn lemma_stream_split(a: Seq<OutRecord>, b: Seq<OutRecord>, u: RecordStream)
    ensures
        stream_of(a + b) + u == stream_of(a) + (stream_of(b) + u),
{
    assert(stream_of(a + b) =~= stream_of(a) + stream_of(b));
    assert(stream_of(a + b) + u =~= stream_of(a) + (stream_of(b) + u));
}

/// The stream of one record: the record read back, then what follows.
pub proof fn lemma_one(t: RecordType, b: BodyView, u: RecordStream)
    ensures
        stream_of(one(t, b)) + u == seq![Ok::<RecView, RecordErrorView>(rv(t, b))] + u,
        (stream_of(one(t, b)) + u).len() == u.len() + 1,
        (stream_of(one(t, b)) + u)[0] == Ok::<RecView, RecordErrorView>(rv(t, b)),
        (stream_of(one(t, b)) + u).drop_first() == u,
{
    assert(stream_of(one(t, b)) =~= seq![Ok::<RecView, RecordErrorView>(rv(t, b))]);
    assert((stream_of(one(t, b)) + u).drop_first() =~= u);
}

proof fn lemma_next_not_prepend(x: Seq<OutRecord>, u: RecordStream, t: RecordType)
    requires
        x.len() == 0 ==> next_not(u, t),
        x.len() > 0 ==> x[0].record_type != t,
    ensures
        next_not(stream_of(x) + u, t),
{
    if x.len() == 0 {
        assert(stream_of(x) + u =~= u);
    }
}

/// No records before `u` leave `u`.
pub proof fn lemma_empty_front(u: RecordStream)
    ensures
        stream_of(Seq::<OutRecord>::empty()) + u == u,
{
    assert(stream_of(Seq::<OutRecord>::empty()) + u =~= u);
}

proof fn lemma_next(t: RecordType, b: BodyView, u: RecordStream, context: &'static str)
    ensures
        sp_next(stream_of(one(t, b)) + u, context) == Ok::<_, ParseErrorView>(
            (rv(t, b), u),
        ),
        sp_expect(stream_of(one(t, b)) + u, t, context) == Ok::<
            _,
            ParseErrorView,
        >((rv(t, b), u)),
{
    lemma_one(t, b, u);
}

proof fn lemma_req_i16(t: RecordType, v: i16, u: RecordStream, context: &'static str)
    ensures
        sp_req_i16(stream_of(one(t, BodyView::TwoByteSignedInt(seq![v]))) + u, t, context)
            == Ok::<_, ParseErrorView>((v, u)),
{
    lemma_next(t, BodyView::TwoByteSignedInt(seq![v]), u, context);
}

proof fn lemma_req_str(t: RecordType, s: Seq<u8>, u: RecordStream, context: &'static str)
    ensures
        sp_req_str(stream_of(one(t, BodyView::AsciiString(s))) + u, t, context) == Ok::<
            _,
            ParseErrorView,
        >((s, u)),
{
    lemma_next(t, BodyView::AsciiString(s), u, context);
}

proof fn lemma_opt_i16(t: RecordType, o: Option<i16>, u: RecordStream)
    requires
        next_not(u, t),
    ensures
        sp_opt_i16(stream_of(opt_i16(t, o)) + u, t) == Ok::<_, ParseErrorView>(
            (o, u),
        ),
{
    match o {
        Some(v) => lemma_one(t, BodyView::TwoByteSignedInt(seq![v]), u),
        None => lemma_empty_front(u),
    }
}

proof fn lemma_opt_i32(t: RecordType, o: Option<i32>, u: RecordStream)
    requires
        next_not(u, t),
    ensures
        sp_opt_i32(stream_of(opt_i32(t, o)) + u, t) == Ok::<_, ParseErrorView>(
            (o, u),
        ),
{
    match o {
        Some(v) => lemma_one(t, BodyView::FourByteSignedInt(seq![v]), u),
        None => lemma_empty_front(u),
    }
}

proof fn lemma_opt_u16(t: RecordType, o: Option<u16>, u: RecordStream)
    requires
        next_not(u, t),
    ensures
        sp_opt_u16(stream_of(opt_u16(t, o)) + u, t) == Ok::<_, ParseErrorView>(
            (o, u),
        ),
{
    match o {
        Some(v) => lemma_one(t, BodyView::BitArray(seq![v]), u),
        None => lemma_empty_front(u),
    }
}

proof fn lemma_opt_real(t: RecordType, o: Option<Seq<u8>>, u: RecordStream)
    requires
        next_not(u, t),
    ensures
        sp_opt_real(stream_of(opt_real(t, o)) + u, t) == Ok::<_, ParseErrorView>(
            (o, u),
        ),
{
    match o {
        Some(v) => lemma_one(t, BodyView::EightByteReal(seq![v]), u),
        None => lemma_empty_front(u),
    }
}

proof fn lemma_elflags_plex(elflags: Option<u16>, plex: Option<i32>, u: RecordStream)
    requires
        next_not(u, RecordType::Elflags),
        next_not(u, RecordType::Plex),
    ensures
        sp_elflags_plex(stream_of(elflags_plex_records(elflags, plex)) + u) == Ok::<
            _,
            ParseErrorView,
        >(((elflags, plex), u)),
{
    let e = opt_u16(RecordType::Elflags, elflags);
    let p = opt_i32(RecordType::Plex, plex);
    lemma_stream_split(e, p, u);
    lemma_next_not_prepend(p, u, RecordType::Elflags);
    lemma_opt_u16(RecordType::Elflags, elflags, stream_of(p) + u);
    lemma_opt_i32(RecordType::Plex, plex, u);
}

proof fn lemma_strans_flags(s: StransView)
    ensures
        strans_of(strans_flags(s), s.mag, s.angle) == s,
{
    let f = strans_flags(s);
    if s.reflection {
        if s.abs_mag {
            if s.abs_angle {
                assert(f == 0x8006);
            } else {
                assert(f == 0x8004);
            }
        } else {
            if s.abs_angle {
                assert(f == 0x8002);
            } else {
                assert(f == 0x8000);
            }
        }
    } else {
        if s.abs_mag {
            if s.abs_angle {
                assert(f == 6);
            } else {
                assert(f == 4);
            }
        } else {
            if s.abs_angle {
                assert(f == 2);
            } else {
                assert(f == 0);
            }
        }
    }
}

proof fn lemma_strans(o: Option<StransView>, u: RecordStream)
    requires
        next_not(u, RecordType::Strans),
        next_not(u, RecordType::Mag),
        next_not(u, RecordType::Angle),
    ensures
        sp_strans(stream_of(strans_records(o)) + u) == Ok::<_, ParseErrorView>(
            (o, u),
        ),
{
    match o {
        None => lemma_empty_front(u),
        Some(s) => {
            let f = one(RecordType::Strans, BodyView::BitArray(seq![strans_flags(s)]));
            let m = opt_real(RecordType::Mag, s.mag);
            let a = opt_real(RecordType::Angle, s.angle);
            lemma_stream_split(f + m, a, u);
            lemma_stream_split(f, m, stream_of(a) + u);
            let s2 = stream_of(a) + u;
            let s1 = stream_of(m) + s2;
            lemma_one(RecordType::Strans, BodyView::BitArray(seq![strans_flags(s)]), s1);
            lemma_next_not_prepend(a, u, RecordType::Mag);
            lemma_opt_real(RecordType::Mag, s.mag, s2);
            lemma_opt_real(RecordType::Angle, s.angle, u);
            lemma_strans_flags(s);
        },
    }
}

// ------------------------------------------------------------------------------------------
// Coordinates
// ------------------------------------------------------------------------------------------

proof fn lemma_more_xy(acc: Seq<i32>, xy: Seq<i32>, split: bool, u: RecordStream)
    requires
        next_not(u, RecordType::Xy),
    ensures
        sp_more_xy(stream_of(xy_records(xy, split)) + u, acc) == Ok::<
            _,
            ParseErrorView,
        >((acc + xy, u)),
    decreases xy.len(),
{
    let k = xy_chunk() as int;
    if split && xy.len() > k {
        let head = one(RecordType::Xy, BodyView::FourByteSignedInt(xy.take(k)));
        let tail = xy_records(xy.skip(k), split);
        lemma_stream_split(head, tail, u);
        lemma_one(RecordType::Xy, BodyView::FourByteSignedInt(xy.take(k)), stream_of(tail) + u);
        lemma_more_xy(acc + xy.take(k), xy.skip(k), split, u);
        assert(acc + xy.take(k) + xy.skip(k) =~= acc + xy);
    } else {
        lemma_one(RecordType::Xy, BodyView::FourByteSignedInt(xy), u);
        assert(sp_more_xy(u, acc + xy) == Ok::<_, ParseErrorView>((acc + xy, u)));
    }
}

proof fn lemma_xy(xy: Seq<i32>, split: bool, u: RecordStream, context: &'static str)
    requires
        next_not(u, RecordType::Xy),
    ensures
        sp_xy(stream_of(xy_records(xy, split)) + u, context) == Ok::<
            _,
            ParseErrorView,
        >((xy, u)),
{
    let k = xy_chunk() as int;
    if split && xy.len() > k {
        let head = one(RecordType::Xy, BodyView::FourByteSignedInt(xy.take(k)));
        let tail = xy_records(xy.skip(k), split);
        lemma_stream_split(head, tail, u);
        lemma_next(RecordType::Xy, BodyView::FourByteSignedInt(xy.take(k)), stream_of(tail) + u, context);
        lemma_more_xy(xy.take(k), xy.skip(k), split, u);
        assert(xy.take(k) + xy.skip(k) =~= xy);
    } else {
        lemma_next(RecordType::Xy, BodyView::FourByteSignedInt(xy), u, context);
        assert(sp_more_xy(u, xy) == Ok::<_, ParseErrorView>((xy, u)));
    }
}

// ------------------------------------------------------------------------------------------
// Elements
// ------------------------------------------------------------------------------------------

proof fn lemma_xy_first(xy: Seq<i32>, split: bool)
    ensures
        xy_records(xy, split).len() > 0,
        xy_records(xy, split)[0].record_type == RecordType::Xy,
{
}

/// The stream after an element's coordinates starts apart from every optional record of
/// the element that comes before them.
proof fn lemma_before_xy(xy: Seq<i32>, split: bool, u: RecordStream, t: RecordType)
    requires
        t != RecordType::Xy,
    ensures
        next_not(stream_of(xy_records(xy, split)) + u, t),
{
    lemma_xy_first(xy, split);
    lemma_next_not_prepend(xy_records(xy, split), u, t);
}

/// A boundary, a node or a box: opening record, ELFLAGS/PLEX, LAYER, a second
/// two-byte record of type `kind`, then XY.
proof fn lemma_simple_parts(
    open: RecordType,
    elflags: Option<u16>,
    plex: Option<i32>,
    layer: i16,
    kind: RecordType,
    value: i16,
    xy: Seq<i32>,
    split: bool,
    u: RecordStream,
) -> (s1: RecordStream)
    ensures
        stream_of(
            one(open, BodyView::NoData) + elflags_plex_records(elflags, plex) + one(
                RecordType::Layer,
                BodyView::TwoByteSignedInt(seq![layer]),
            ) + one(kind, BodyView::TwoByteSignedInt(seq![value])) + xy_records(xy, split),
        ) + u == seq![Ok::<RecView, RecordErrorView>(rv(open, BodyView::NoData))] + s1,
        s1 == stream_of(elflags_plex_records(elflags, plex)) + (stream_of(
            one(RecordType::Layer, BodyView::TwoByteSignedInt(seq![layer])),
        ) + (stream_of(one(kind, BodyView::TwoByteSignedInt(seq![value]))) + (stream_of(
            xy_records(xy, split),
        ) + u))),
{
    let o = one(open, BodyView::NoData);
    let ep = elflags_plex_records(elflags, plex);
    let l = one(RecordType::Layer, BodyView::TwoByteSignedInt(seq![layer]));
    let k = one(kind, BodyView::TwoByteSignedInt(seq![value]));
    let x = xy_records(xy, split);
    let s4 = stream_of(x) + u;
    let s3 = stream_of(k) + s4;
    let s2 = stream_of(l) + s3;
    let s1 = stream_of(ep) + s2;
    lemma_stream_split(o + ep + l + k, x, u);
    lemma_stream_split(o + ep + l, k, s4);
    lemma_stream_split(o + ep, l, s3);
    lemma_stream_split(o, ep, s2);
    lemma_one(open, BodyView::NoData, s1);
    s1
}

proof fn lemma_simple_fields(
    elflags: Option<u16>,
    plex: Option<i32>,
    layer: i16,
    kind: RecordType,
    value: i16,
    xy: Seq<i32>,
    split: bool,
    u: RecordStream,
    context: &'static str,
)
    requires
        next_not(u, RecordType::Xy),
    ensures
        ({
            let s4 = stream_of(xy_records(xy, split)) + u;
            let s3 = stream_of(one(kind, BodyView::TwoByteSignedInt(seq![value]))) + s4;
            let s2 = stream_of(one(RecordType::Layer, BodyView::TwoByteSignedInt(seq![layer])))
                + s3;
            let s1 = stream_of(elflags_plex_records(elflags, plex)) + s2;
            &&& sp_elflags_plex(s1) == Ok::<_, ParseErrorView>(((elflags, plex), s2))
            &&& sp_req_i16(s2, RecordType::Layer, context) == Ok::<_, ParseErrorView>((layer, s3))
            &&& sp_req_i16(s3, kind, context) == Ok::<_, ParseErrorView>((value, s4))
            &&& sp_xy(s4, context) == Ok::<_, ParseErrorView>((xy, u))
        }),
{
    let s4 = stream_of(xy_records(xy, split)) + u;
    let s3 = stream_of(one(kind, BodyView::TwoByteSignedInt(seq![value]))) + s4;
    let s2 = stream_of(one(RecordType::Layer, BodyView::TwoByteSignedInt(seq![layer]))) + s3;
    lemma_one(RecordType::Layer, BodyView::TwoByteSignedInt(seq![layer]), s3);
    lemma_elflags_plex(elflags, plex, s2);
    lemma_req_i16(RecordType::Layer, layer, s3, context);
    lemma_req_i16(kind, value, s4, context);
    lemma_xy(xy, split, u, context);
}

proof fn lemma_lead(v: RecView, u: RecordStream)
    ensures
        (seq![Ok::<RecView, RecordErrorView>(v)] + u).len() == u.len() + 1,
        (seq![Ok::<RecView, RecordErrorView>(v)] + u)[0] == Ok::<RecView, RecordErrorView>(v),
        (seq![Ok::<RecView, RecordErrorView>(v)] + u).drop_first() == u,
{
    assert((seq![Ok::<RecView, RecordErrorView>(v)] + u).drop_first() =~= u);
}

/// The stream of a path's records after its PATH record, each suffix named.
spec fn path_tail(
    elflags: Option<u16>,
    plex: Option<i32>,
    layer: i16,
    datatype: i16,
    pathtype: Option<i16>,
    width: Option<i32>,
    bgn_extn: Option<i32>,
    end_extn: Option<i32>,
    xy: Seq<i32>,
    split: bool,
    u: RecordStream,
) -> Seq<RecordStream> {
    let s8 = stream_of(xy_records(xy, split)) + u;
    let s7 = stream_of(opt_i32(RecordType::EndExtn, end_extn)) + s8;
    let s6 = stream_of(opt_i32(RecordType::BgnExtn, bgn_extn)) + s7;
    let s5 = stream_of(opt_i32(RecordType::Width, width)) + s6;
    let s4 = stream_of(opt_i16(RecordType::Pathtype, pathtype)) + s5;
    let s3 = stream_of(one(RecordType::Datatype, BodyView::TwoByteSignedInt(seq![datatype])))
        + s4;
    let s2 = stream_of(one(RecordType::Layer, BodyView::TwoByteSignedInt(seq![layer]))) + s3;
    let s1 = stream_of(elflags_plex_records(elflags, plex)) + s2;
    seq![s1, s2, s3, s4, s5, s6, s7, s8]
}

proof fn lemma_path_fields(
    elflags: Option<u16>,
    plex: Option<i32>,
    layer: i16,
    datatype: i16,
    pathtype: Option<i16>,
    width: Option<i32>,
    bgn_extn: Option<i32>,
    end_extn: Option<i32>,
    xy: Seq<i32>,
    split: bool,
    u: RecordStream,
)
    requires
        next_not(u, RecordType::Xy),
    ensures
        sp_path(
            path_tail(
                elflags,
                plex,
                layer,
                datatype,
                pathtype,
                width,
                bgn_extn,
                end_extn,
                xy,
                split,
                u,
            )[0],
        ) == sp_element_end(
            ElementView::Path {
                elflags,
                plex,
                layer,
                datatype,
                pathtype,
                width,
                bgn_extn,
                end_extn,
                xy,
            },
            u,
        ),
{
    reveal(sp_path);
    let t = path_tail(
        elflags,
        plex,
        layer,
        datatype,
        pathtype,
        width,
        bgn_extn,
        end_extn,
        xy,
        split,
        u,
    );
    let (s1, s2, s3, s4, s5, s6, s7, s8) = (t[0], t[1], t[2], t[3], t[4], t[5], t[6], t[7]);
    let w = opt_i32(RecordType::Width, width);
    let be = opt_i32(RecordType::BgnExtn, bgn_extn);
    let ee = opt_i32(RecordType::EndExtn, end_extn);
    lemma_one(RecordType::Layer, BodyView::TwoByteSignedInt(seq![layer]), s3);
    lemma_elflags_plex(elflags, plex, s2);
    lemma_req_i16(RecordType::Layer, layer, s3, "Path");
    lemma_req_i16(RecordType::Datatype, datatype, s4, "Path");
    lemma_before_xy(xy, split, u, RecordType::Pathtype);
    lemma_before_xy(xy, split, u, RecordType::Width);
    lemma_before_xy(xy, split, u, RecordType::BgnExtn);
    lemma_before_xy(xy, split, u, RecordType::EndExtn);
    lemma_next_not_prepend(ee, s8, RecordType::Pathtype);
    lemma_next_not_prepend(ee, s8, RecordType::Width);
    lemma_next_not_prepend(ee, s8, RecordType::BgnExtn);
    lemma_next_not_prepend(be, s7, RecordType::Pathtype);
    lemma_next_not_prepend(be, s7, RecordType::Width);
    lemma_next_not_prepend(w, s6, RecordType::Pathtype);
    lemma_opt_i16(RecordType::Pathtype, pathtype, s5);
    lemma_opt_i32(RecordType::Width, width, s6);
    lemma_opt_i32(RecordType::BgnExtn, bgn_extn, s7);
    lemma_opt_i32(RecordType::EndExtn, end_extn, s8);
    lemma_xy(xy, split, u, "Path");
}

proof fn lemma_path(el: ElementView, split: bool, u: RecordStream)
    requires
        el is Path,
        element_fits(el, split),
        next_not(u, RecordType::Xy),
    ensures
        sp_structure_item(stream_of(element_records(el, split)) + u) == sp_element_end(el, u),
{
    match el {
        ElementView::Path {
            elflags,
            plex,
            layer,
            datatype,
            pathtype,
            width,
            bgn_extn,
            end_extn,
            xy,
        } => {
            let o = one(RecordType::Path, BodyView::NoData);
            let ep = elflags_plex_records(elflags, plex);
            let l = one(RecordType::Layer, BodyView::TwoByteSignedInt(seq![layer]));
            let d = one(RecordType::Datatype, BodyView::TwoByteSignedInt(seq![datatype]));
            let pt = opt_i16(RecordType::Pathtype, pathtype);
            let w = opt_i32(RecordType::Width, width);
            let be = opt_i32(RecordType::BgnExtn, bgn_extn);
            let ee = opt_i32(RecordType::EndExtn, end_extn);
            let x = xy_records(xy, split);
            let t = path_tail(
                elflags,
                plex,
                layer,
                datatype,
                pathtype,
                width,
                bgn_extn,
                end_extn,
                xy,
                split,
                u,
            );
            lemma_stream_split(o + ep + l + d + pt + w + be + ee, x, u);
            lemma_stream_split(o + ep + l + d + pt + w + be, ee, t[7]);
            lemma_stream_split(o + ep + l + d + pt + w, be, t[6]);
            lemma_stream_split(o + ep + l + d + pt, w, t[5]);
            lemma_stream_split(o + ep + l + d, pt, t[4]);
            lemma_stream_split(o + ep + l, d, t[3]);
            lemma_stream_split(o + ep, l, t[2]);
            lemma_stream_split(o, ep, t[1]);
            lemma_one(RecordType::Path, BodyView::NoData, t[0]);
            lemma_lead(rv(RecordType::Path, BodyView::NoData), t[0]);
            lemma_path_fields(
                elflags,
                plex,
                layer,
                datatype,
                pathtype,
                width,
                bgn_extn,
                end_extn,
                xy,
                split,
                u,
            );
        },
        _ => {},
    }
}

proof fn lemma_sref(el: ElementView, split: bool, u: RecordStream)
    requires
        el is Sref,
        element_fits(el, split),
        next_not(u, RecordType::Xy),
    ensures
        sp_structure_item(stream_of(element_records(el, split)) + u) == sp_element_end(el, u),
{
    reveal(sp_sref);
    match el {
        ElementView::Sref { elflags, plex, sname, strans, xy } => {
            let o = one(RecordType::Sref, BodyView::NoData);
            let ep = elflags_plex_records(elflags, plex);
            let n = one(RecordType::Sname, BodyView::AsciiString(sname));
            let st = strans_records(strans);
            let x = xy_records(xy, split);
            let s4 = stream_of(x) + u;
            let s3 = stream_of(st) + s4;
            let s2 = stream_of(n) + s3;
            let s1 = stream_of(ep) + s2;
            lemma_stream_split(o + ep + n + st, x, u);
            lemma_stream_split(o + ep + n, st, s4);
            lemma_stream_split(o + ep, n, s3);
            lemma_stream_split(o, ep, s2);
            lemma_one(RecordType::Sref, BodyView::NoData, s1);
            lemma_lead(rv(RecordType::Sref, BodyView::NoData), s1);
            lemma_one(RecordType::Sname, BodyView::AsciiString(sname), s3);
            lemma_elflags_plex(elflags, plex, s2);
            lemma_req_str(RecordType::Sname, sname, s3, "Sref");
            lemma_before_xy(xy, split, u, RecordType::Strans);
            lemma_before_xy(xy, split, u, RecordType::Mag);
            lemma_before_xy(xy, split, u, RecordType::Angle);
            lemma_strans(strans, s4);
            lemma_xy(xy, split, u, "Sref");
        },
        _ => {},
    }
}

/// The stream of an array reference's records after its AREF record, each suffix named.
spec fn aref_tail(
    elflags: Option<u16>,
    plex: Option<i32>,
    sname: Seq<u8>,
    strans: Option<StransView>,
    colrow: (i16, i16),
    xy: Seq<i32>,
    split: bool,
    u: RecordStream,
) -> Seq<RecordStream> {
    let s5 = stream_of(xy_records(xy, split)) + u;
    let s4 = stream_of(
        one(RecordType::Colrow, BodyView::TwoByteSignedInt(seq![colrow.0, colrow.1])),
    ) + s5;
    let s3 = stream_of(strans_records(strans)) + s4;
    let s2 = stream_of(one(RecordType::Sname, BodyView::AsciiString(sname))) + s3;
    let s1 = stream_of(elflags_plex_records(elflags, plex)) + s2;
    seq![s1, s2, s3, s4, s5]
}

proof fn lemma_aref_fields(
    elflags: Option<u16>,
    plex: Option<i32>,
    sname: Seq<u8>,
    strans: Option<StransView>,
    colrow: (i16, i16),
    xy: Seq<i32>,
    split: bool,
    u: RecordStream,
)
    requires
        next_not(u, RecordType::Xy),
    ensures
        sp_aref(aref_tail(elflags, plex, sname, strans, colrow, xy, split, u)[0])
            == sp_element_end(ElementView::Aref { elflags, plex, sname, strans, colrow, xy }, u),
{
    reveal(sp_aref);
    let t = aref_tail(elflags, plex, sname, strans, colrow, xy, split, u);
    let (s1, s2, s3, s4, s5) = (t[0], t[1], t[2], t[3], t[4]);
    let cr = BodyView::TwoByteSignedInt(seq![colrow.0, colrow.1]);
    lemma_one(RecordType::Sname, BodyView::AsciiString(sname), s3);
    lemma_elflags_plex(elflags, plex, s2);
    lemma_req_str(RecordType::Sname, sname, s3, "Aref");
    lemma_one(RecordType::Colrow, cr, s5);
    lemma_strans(strans, s4);
    lemma_next(RecordType::Colrow, cr, s5, "Aref");
    lemma_xy(xy, split, u, "Aref");
}

proof fn lemma_aref(el: ElementView, split: bool, u: RecordStream)
    requires
        el is Aref,
        next_not(u, RecordType::Xy),
    ensures
        sp_structure_item(stream_of(element_records(el, split)) + u) == sp_element_end(el, u),
{
    match el {
        ElementView::Aref { elflags, plex, sname, strans, colrow, xy } => {
            let o = one(RecordType::Aref, BodyView::NoData);
            let ep = elflags_plex_records(elflags, plex);
            let n = one(RecordType::Sname, BodyView::AsciiString(sname));
            let st = strans_records(strans);
            let cr = one(RecordType::Colrow, BodyView::TwoByteSignedInt(seq![colrow.0, colrow.1]));
            let x = xy_records(xy, split);
            let t = aref_tail(elflags, plex, sname, strans, colrow, xy, split, u);
            lemma_stream_split(o + ep + n + st + cr, x, u);
            lemma_stream_split(o + ep + n + st, cr, t[4]);
            lemma_stream_split(o + ep + n, st, t[3]);
            lemma_stream_split(o + ep, n, t[2]);
            lemma_stream_split(o, ep, t[1]);
            lemma_one(RecordType::Aref, BodyView::NoData, t[0]);
            lemma_lead(rv(RecordType::Aref, BodyView::NoData), t[0]);
            lemma_aref_fields(elflags, plex, sname, strans, colrow, xy, split, u);
        },
        _ => {},
    }
}

/// The stream of a text element's records after its TEXT record, each suffix named.
spec fn text_tail(
    elflags: Option<u16>,
    plex: Option<i32>,
    layer: i16,
    texttype: i16,
    presentation: Option<u16>,
    pathtype: Option<i16>,
    width: Option<i32>,
    strans: Option<StransView>,
    xy: Seq<i32>,
    string: Seq<u8>,
    split: bool,
    u: RecordStream,
) -> Seq<RecordStream> {
    let s9 = stream_of(one(RecordType::String, BodyView::AsciiString(string))) + u;
    let s8 = stream_of(xy_records(xy, split)) + s9;
    let s7 = stream_of(strans_records(strans)) + s8;
    let s6 = stream_of(opt_i32(RecordType::Width, width)) + s7;
    let s5 = stream_of(opt_i16(RecordType::Pathtype, pathtype)) + s6;
    let s4 = stream_of(opt_u16(RecordType::Presentation, presentation)) + s5;
    let s3 = stream_of(one(RecordType::TextType, BodyView::TwoByteSignedInt(seq![texttype])))
        + s4;
    let s2 = stream_of(one(RecordType::Layer, BodyView::TwoByteSignedInt(seq![layer]))) + s3;
    let s1 = stream_of(elflags_plex_records(elflags, plex)) + s2;
    seq![s1, s2, s3, s4, s5, s6, s7, s8, s9]
}

proof fn lemma_text_fields(
    elflags: Option<u16>,
    plex: Option<i32>,
    layer: i16,
    texttype: i16,
    presentation: Option<u16>,
    pathtype: Option<i16>,
    width: Option<i32>,
    strans: Option<StransView>,
    xy: Seq<i32>,
    string: Seq<u8>,
    split: bool,
    u: RecordStream,
)
    ensures
        sp_text(
            text_tail(
                elflags,
                plex,
                layer,
                texttype,
                presentation,
                pathtype,
                width,
                strans,
                xy,
                string,
                split,
                u,
            )[0],
        ) == sp_element_end(
            ElementView::Text {
                elflags,
                plex,
                layer,
                texttype,
                presentation,
                pathtype,
                width,
                strans,
                xy,
                string,
            },
            u,
        ),
{
    reveal(sp_text);
    let t = text_tail(
        elflags,
        plex,
        layer,
        texttype,
        presentation,
        pathtype,
        width,
        strans,
        xy,
        string,
        split,
        u,
    );
    let (s1, s2, s3, s4, s5, s6, s7, s8, s9) = (
        t[0],
        t[1],
        t[2],
        t[3],
        t[4],
        t[5],
        t[6],
        t[7],
        t[8],
    );
    let pt = opt_i16(RecordType::Pathtype, pathtype);
    let w = opt_i32(RecordType::Width, width);
    let st = strans_records(strans);
    lemma_one(RecordType::Layer, BodyView::TwoByteSignedInt(seq![layer]), s3);
    lemma_elflags_plex(elflags, plex, s2);
    lemma_req_i16(RecordType::Layer, layer, s3, "Text");
    lemma_req_i16(RecordType::TextType, texttype, s4, "Text");
    lemma_before_xy(xy, split, s9, RecordType::Presentation);
    lemma_before_xy(xy, split, s9, RecordType::Pathtype);
    lemma_before_xy(xy, split, s9, RecordType::Width);
    lemma_before_xy(xy, split, s9, RecordType::Strans);
    lemma_before_xy(xy, split, s9, RecordType::Mag);
    lemma_before_xy(xy, split, s9, RecordType::Angle);
    lemma_next_not_prepend(st, s8, RecordType::Presentation);
    lemma_next_not_prepend(st, s8, RecordType::Pathtype);
    lemma_next_not_prepend(st, s8, RecordType::Width);
    lemma_next_not_prepend(w, s7, RecordType::Presentation);
    lemma_next_not_prepend(w, s7, RecordType::Pathtype);
    lemma_next_not_prepend(pt, s6, RecordType::Presentation);
    lemma_opt_u16(RecordType::Presentation, presentation, s5);
    lemma_opt_i16(RecordType::Pathtype, pathtype, s6);
    lemma_opt_i32(RecordType::Width, width, s7);
    lemma_strans(strans, s8);
    lemma_one(RecordType::String, BodyView::AsciiString(string), u);
    lemma_xy(xy, split, s9, "Text");
    lemma_req_str(RecordType::String, string, u, "Text");
}

proof fn lemma_text(el: ElementView, split: bool, u: RecordStream)
    requires
        el is Text,
    ensures
        sp_structure_item(stream_of(element_records(el, split)) + u) == sp_element_end(el, u),
{
    match el {
        ElementView::Text {
            elflags,
            plex,
            layer,
            texttype,
            presentation,
            pathtype,
            width,
            strans,
            xy,
            string,
        } => {
            let o = one(RecordType::Text, BodyView::NoData);
            let ep = elflags_plex_records(elflags, plex);
            let l = one(RecordType::Layer, BodyView::TwoByteSignedInt(seq![layer]));
            let tt = one(RecordType::TextType, BodyView::TwoByteSignedInt(seq![texttype]));
            let pr = opt_u16(RecordType::Presentation, presentation);
            let pt = opt_i16(RecordType::Pathtype, pathtype);
            let w = opt_i32(RecordType::Width, width);
            let st = strans_records(strans);
            let x = xy_records(xy, split);
            let sg = one(RecordType::String, BodyView::AsciiString(string));
            let t = text_tail(
                elflags,
                plex,
                layer,
                texttype,
                presentation,
                pathtype,
                width,
                strans,
                xy,
                string,
                split,
                u,
            );
            lemma_stream_split(o + ep + l + tt + pr + pt + w + st + x, sg, u);
            lemma_stream_split(o + ep + l + tt + pr + pt + w + st, x, t[8]);
            lemma_stream_split(o + ep + l + tt + pr + pt + w, st, t[7]);
            lemma_stream_split(o + ep + l + tt + pr + pt, w, t[6]);
            lemma_stream_split(o + ep + l + tt + pr, pt, t[5]);
            lemma_stream_split(o + ep + l + tt, pr, t[4]);
            lemma_stream_split(o + ep + l, tt, t[3]);
            lemma_stream_split(o + ep, l, t[2]);
            lemma_stream_split(o, ep, t[1]);
            lemma_one(RecordType::Text, BodyView::NoData, t[0]);
            lemma_lead(rv(RecordType::Text, BodyView::NoData), t[0]);
            lemma_text_fields(
                elflags,
                plex,
                layer,
                texttype,
                presentation,
                pathtype,
                width,
                strans,
                xy,
                string,
                split,
                u,
            );
        },
        _ => {},
    }
}

#[verifier::spinoff_prover]
proof fn lemma_boundary(el: ElementView, split: bool, u: RecordStream)
    requires
        el is Boundary,
        next_not(u, RecordType::Xy),
    ensures
        sp_structure_item(stream_of(element_records(el, split)) + u) == sp_element_end(el, u),
{
    match el {
        ElementView::Boundary { elflags, plex, layer, datatype, xy } => {
            let s1 = lemma_simple_parts(
                RecordType::Boundary,
                elflags,
                plex,
                layer,
                RecordType::Datatype,
                datatype,
                xy,
                split,
                u,
            );
            lemma_lead(rv(RecordType::Boundary, BodyView::NoData), s1);
            assert(sp_boundary(s1) == sp_element_end(el, u)) by {
                reveal(sp_boundary);
                lemma_simple_fields(
                    elflags,
                    plex,
                    layer,
                    RecordType::Datatype,
                    datatype,
                    xy,
                    split,
                    u,
                    "Boundary",
                );
            }
        },
        _ => {},
    }
}

#[verifier::spinoff_prover]
proof fn lemma_node(el: ElementView, split: bool, u: RecordStream)
    requires
        el is Node,
        next_not(u, RecordType::Xy),
    ensures
        sp_structure_item(stream_of(element_records(el, split)) + u) == sp_element_end(el, u),
{
    match el {
        ElementView::Node { elflags, plex, layer, nodetype, xy } => {
            let s1 = lemma_simple_parts(
                RecordType::Node,
                elflags,
                plex,
                layer,
                RecordType::Nodetype,
                nodetype,
                xy,
                split,
                u,
            );
            lemma_lead(rv(RecordType::Node, BodyView::NoData), s1);
            assert(sp_node(s1) == sp_element_end(el, u)) by {
                reveal(sp_node);
                lemma_simple_fields(
                    elflags,
                    plex,
                    layer,
                    RecordType::Nodetype,
                    nodetype,
                    xy,
                    split,
                    u,
                    "Node",
                );
            }
        },
        _ => {},
    }
}

#[verifier::spinoff_prover]
proof fn lemma_gds_box(el: ElementView, split: bool, u: RecordStream)
    requires
        el is Box,
        next_not(u, RecordType::Xy),
    ensures
        sp_structure_item(stream_of(element_records(el, split)) + u) == sp_element_end(el, u),
{
    match el {
        ElementView::Box { elflags, plex, layer, boxtype, xy } => {
            let s1 = lemma_simple_parts(
                RecordType::Box,
                elflags,
                plex,
                layer,
                RecordType::BoxType,
                boxtype,
                xy,
                split,
                u,
            );
            lemma_lead(rv(RecordType::Box, BodyView::NoData), s1);
            assert(sp_gds_box(s1) == sp_element_end(el, u)) by {
                reveal(sp_gds_box);
                lemma_simple_fields(
                    elflags,
                    plex,
                    layer,
                    RecordType::BoxType,
                    boxtype,
                    xy,
                    split,
                    u,
                    "Box",
                );
            }
        },
        _ => {},
    }
}

/// The records of a fitting element, followed by a stream that does not start with an XY
/// record, parse inside a structure as that element, up to its end.
pub proof fn lemma_element(el: ElementView, split: bool, u: RecordStream)
    requires
        element_fits(el, split),
        next_not(u, RecordType::Xy),
    ensures
        sp_structure_item(stream_of(element_records(el, split)) + u) == sp_element_end(el, u),
{
    match el {
        ElementView::Boundary { .. } => lemma_boundary(el, split, u),
        ElementView::Node { .. } => lemma_node(el, split, u),
        ElementView::Box { .. } => lemma_gds_box(el, split, u),
        ElementView::Path { .. } => lemma_path(el, split, u),
        ElementView::Sref { .. } => lemma_sref(el, split, u),
        ElementView::Aref { .. } => lemma_aref(el, split, u),
        ElementView::Text { .. } => lemma_text(el, split, u),
    }
}

// ------------------------------------------------------------------------------------------
// Library, structure and property records
// ------------------------------------------------------------------------------------------

proof fn lemma_options_reflibs(
    o: Option<Seq<u8>>,
    u: RecordStream,
    version: i16,
    timestamps: Seq<i16>,
    lib_name: Seq<u8>,
)
    ensures
        sp_library_options(
            stream_of(opt_str(RecordType::Reflibs, o)) + u,
            version,
            timestamps,
            lib_name,
            None,
            None,
            None,
            None,
        ) == sp_library_options(u, version, timestamps, lib_name, o, None, None, None),
{
    match o {
        Some(v) => lemma_one(RecordType::Reflibs, BodyView::AsciiString(v), u),
        None => lemma_empty_front(u),
    }
}

proof fn lemma_options_fonts(
    o: Option<Seq<u8>>,
    u: RecordStream,
    version: i16,
    timestamps: Seq<i16>,
    lib_name: Seq<u8>,
    reflibs: Option<Seq<u8>>,
)
    ensures
        sp_library_options(
            stream_of(opt_str(RecordType::Fonts, o)) + u,
            version,
            timestamps,
            lib_name,
            reflibs,
            None,
            None,
            None,
        ) == sp_library_options(u, version, timestamps, lib_name, reflibs, o, None, None),
{
    match o {
        Some(v) => lemma_one(RecordType::Fonts, BodyView::AsciiString(v), u),
        None => lemma_empty_front(u),
    }
}

proof fn lemma_options_attrtable(
    o: Option<Seq<u8>>,
    u: RecordStream,
    version: i16,
    timestamps: Seq<i16>,
    lib_name: Seq<u8>,
    reflibs: Option<Seq<u8>>,
    fonts: Option<Seq<u8>>,
)
    ensures
        sp_library_options(
            stream_of(opt_str(RecordType::Attrtable, o)) + u,
            version,
            timestamps,
            lib_name,
            reflibs,
            fonts,
            None,
            None,
        ) == sp_library_options(u, version, timestamps, lib_name, reflibs, fonts, o, None),
{
    match o {
        Some(v) => lemma_one(RecordType::Attrtable, BodyView::AsciiString(v), u),
        None => lemma_empty_front(u),
    }
}

proof fn lemma_options_generations(
    o: Option<i16>,
    u: RecordStream,
    version: i16,
    timestamps: Seq<i16>,
    lib_name: Seq<u8>,
    reflibs: Option<Seq<u8>>,
    fonts: Option<Seq<u8>>,
    attrtable: Option<Seq<u8>>,
)
    ensures
        sp_library_options(
            stream_of(opt_i16(RecordType::Generations, o)) + u,
            version,
            timestamps,
            lib_name,
            reflibs,
            fonts,
            attrtable,
            None,
        ) == sp_library_options(u, version, timestamps, lib_name, reflibs, fonts, attrtable, o),
{
    match o {
        Some(v) => lemma_one(RecordType::Generations, BodyView::TwoByteSignedInt(seq![v]), u),
        None => lemma_empty_front(u),
    }
}

proof fn lemma_options_units(
    db_in_user: Seq<u8>,
    db_in_meters: Seq<u8>,
    u: RecordStream,
    version: i16,
    timestamps: Seq<i16>,
    lib_name: Seq<u8>,
    reflibs: Option<Seq<u8>>,
    fonts: Option<Seq<u8>>,
    attrtable: Option<Seq<u8>>,
    generations: Option<i16>,
)
    ensures
        sp_library_options(
            stream_of(
                one(RecordType::Units, BodyView::EightByteReal(seq![db_in_user, db_in_meters])),
            ) + u,
            version,
            timestamps,
            lib_name,
            reflibs,
            fonts,
            attrtable,
            generations,
        ) == Ok::<_, ParseErrorView>(
            (
                EventView::LibraryBegin {
                    version,
                    timestamps,
                    lib_name,
                    db_in_user,
                    db_in_meters,
                    reflibs,
                    fonts,
                    attrtable,
                    generations,
                },
                u,
                ParseState::Library,
            ),
        ),
{
    lemma_one(RecordType::Units, BodyView::EightByteReal(seq![db_in_user, db_in_meters]), u);
}

/// The records of a library header parse, from the start, as that header.
proof fn lemma_library_begin(e: EventView, needs_endel: bool, split: bool, u: RecordStream)
    requires
        e is LibraryBegin,
    ensures
        sp_library_begin(stream_of(event_records(e, needs_endel, split)) + u) == Ok::<
            _,
            ParseErrorView,
        >((e, u, ParseState::Library)),
{
    match e {
        EventView::LibraryBegin {
            version,
            timestamps,
            lib_name,
            db_in_user,
            db_in_meters,
            reflibs,
            fonts,
            attrtable,
            generations,
        } => {
            let h = one(RecordType::Header, BodyView::TwoByteSignedInt(seq![version]));
            let b = one(RecordType::BgnLib, BodyView::TwoByteSignedInt(timestamps));
            let n = one(RecordType::LibName, BodyView::AsciiString(lib_name));
            let r = opt_str(RecordType::Reflibs, reflibs);
            let f = opt_str(RecordType::Fonts, fonts);
            let a = opt_str(RecordType::Attrtable, attrtable);
            let g = opt_i16(RecordType::Generations, generations);
            let un = one(
                RecordType::Units,
                BodyView::EightByteReal(seq![db_in_user, db_in_meters]),
            );
            let s8 = stream_of(un) + u;
            let s7 = stream_of(g) + s8;
            let s6 = stream_of(a) + s7;
            let s5 = stream_of(f) + s6;
            let s4 = stream_of(r) + s5;
            let s3 = stream_of(n) + s4;
            let s2 = stream_of(b) + s3;
            lemma_stream_split(h + b + n + r + f + a + g, un, u);
            lemma_stream_split(h + b + n + r + f + a, g, s8);
            lemma_stream_split(h + b + n + r + f, a, s7);
            lemma_stream_split(h + b + n + r, f, s6);
            lemma_stream_split(h + b + n, r, s5);
            lemma_stream_split(h + b, n, s4);
            lemma_stream_split(h, b, s3);
            lemma_req_i16(RecordType::Header, version, s2, "library begin");
            lemma_next(
                RecordType::BgnLib,
                BodyView::TwoByteSignedInt(timestamps),
                s3,
                "library begin",
            );
            lemma_req_str(RecordType::LibName, lib_name, s4, "library begin");
            lemma_options_reflibs(reflibs, s5, version, timestamps, lib_name);
            lemma_options_fonts(fonts, s6, version, timestamps, lib_name, reflibs);
            lemma_options_attrtable(attrtable, s7, version, timestamps, lib_name, reflibs, fonts);
            lemma_options_generations(
                generations,
                s8,
                version,
                timestamps,
                lib_name,
                reflibs,
                fonts,
                attrtable,
            );
            lemma_options_units(
                db_in_user,
                db_in_meters,
                u,
                version,
                timestamps,
                lib_name,
                reflibs,
                fonts,
                attrtable,
                generations,
            );
        },
        _ => {},
    }
}

/// The records of a structure header (no ENDEL owed) parse, between structures, as that
/// header.
proof fn lemma_structure_begin(e: EventView, split: bool, u: RecordStream)
    requires
        e is StructureBegin,
    ensures
        sp_library_item(stream_of(event_records(e, false, split)) + u) == Ok::<_, ParseErrorView>(
            (e, u, ParseState::Structure),
        ),
{
    match e {
        EventView::StructureBegin { timestamps, name } => {
            let b = one(RecordType::BgnStr, BodyView::TwoByteSignedInt(timestamps));
            let n = one(RecordType::StrName, BodyView::AsciiString(name));
            assert(event_records(e, false, split) =~= b + n);
            lemma_stream_split(b, n, u);
            lemma_next(
                RecordType::BgnStr,
                BodyView::TwoByteSignedInt(timestamps),
                stream_of(n) + u,
                "library",
            );
            lemma_req_str(RecordType::StrName, name, u, "structure begin");
        },
        _ => {},
    }
}

/// ENDLIB (no ENDEL owed) parses, between structures, as the library's end.
proof fn lemma_library_end(split: bool, u: RecordStream)
    ensures
        sp_library_item(stream_of(event_records(EventView::LibraryEnd, false, split)) + u)
            == Ok::<_, ParseErrorView>((EventView::LibraryEnd, u, ParseState::Done)),
{
    assert(event_records(EventView::LibraryEnd, false, split) =~= one(
        RecordType::EndLib,
        BodyView::NoData,
    ));
    lemma_next(RecordType::EndLib, BodyView::NoData, u, "library");
}

/// ENDSTR (no ENDEL owed) parses, inside a structure, as the structure's end.
proof fn lemma_structure_end(split: bool, u: RecordStream)
    ensures
        sp_structure_item(stream_of(event_records(EventView::StructureEnd, false, split)) + u)
            == Ok::<_, ParseErrorView>((EventView::StructureEnd, u, ParseState::Library)),
{
    assert(event_records(EventView::StructureEnd, false, split) =~= one(
        RecordType::EndStr,
        BodyView::NoData,
    ));
    lemma_next(RecordType::EndStr, BodyView::NoData, u, "structure");
}

/// The records of a property parse, after an element, as that property.
proof fn lemma_property(e: EventView, needs_endel: bool, split: bool, u: RecordStream)
    requires
        e is Property,
    ensures
        sp_property(stream_of(event_records(e, needs_endel, split)) + u) == Ok::<
            _,
            ParseErrorView,
        >((e, u, ParseState::Properties)),
{
    match e {
        EventView::Property { attr, value } => {
            let a = one(RecordType::Propattr, BodyView::TwoByteSignedInt(seq![attr]));
            let v = one(RecordType::Propvalue, BodyView::AsciiString(value));
            lemma_stream_split(a, v, u);
            lemma_next(
                RecordType::Propattr,
                BodyView::TwoByteSignedInt(seq![attr]),
                stream_of(v) + u,
                "properties",
            );
            lemma_req_str(RecordType::Propvalue, value, u, "property value");
        },
        _ => {},
    }
}

/// ENDEL after an element's properties closes the element; what follows parses as inside
/// the structure.
proof fn lemma_property_endel(u: RecordStream)
    ensures
        sp_property(stream_of(one(RecordType::Endel, BodyView::NoData)) + u)
            == sp_structure_item(u),
{
    lemma_next(RecordType::Endel, BodyView::NoData, u, "properties");
}

// ------------------------------------------------------------------------------------------
// Well-formed event streams
// ------------------------------------------------------------------------------------------

/// Where an event stream stands in the library's grammar.
pub enum Phase {
    /// Before the library header.
    Start,
    /// Between structures.
    Library,
    /// Inside a structure, before its first element.
    Structure,
    /// Right after an element.
    AfterElement,
    /// Right after a property of an element.
    AfterProperty,
    /// After the library's end.
    Ended,
}

/// Whether the phase is inside a structure.
pub open spec fn in_structure(p: Phase) -> bool {
    p is Structure || p is AfterElement || p is AfterProperty
}

/// The phase after event `e` in phase `p`, if the grammar allows `e` there: the header
/// first, then structures, each of elements each followed by its properties, then the end.
pub open spec fn next_phase(p: Phase, e: EventView) -> Option<Phase> {
    match e {
        EventView::LibraryBegin { .. } => if p is Start {
            Some(Phase::Library)
        } else {
            None
        },
        EventView::StructureBegin { .. } => if p is Library {
            Some(Phase::Structure)
        } else {
            None
        },
        EventView::LibraryEnd => if p is Library {
            Some(Phase::Ended)
        } else {
            None
        },
        EventView::Element(_) => if in_structure(p) {
            Some(Phase::AfterElement)
        } else {
            None
        },
        EventView::Property { .. } => if p is AfterElement || p is AfterProperty {
            Some(Phase::AfterProperty)
        } else {
            None
        },
        EventView::StructureEnd => if in_structure(p) {
            Some(Phase::Library)
        } else {
            None
        },
    }
}

/// The events, from phase `p`, follow the grammar to the library's end, and each fits in
/// its records.
pub open spec fn well_formed_from(p: Phase, evs: Seq<EventView>, split: bool) -> bool
    decreases evs.len(),
{
    if evs.len() == 0 {
        p is Ended
    } else {
        event_fits(evs[0], split) && match next_phase(p, evs[0]) {
            Some(q) => well_formed_from(q, evs.drop_first(), split),
            None => false,
        }
    }
}

/// A whole library: header, structures, end; every value fitting in its records.
pub open spec fn well_formed(evs: Seq<EventView>, split: bool) -> bool {
    well_formed_from(Phase::Start, evs, split)
}

/// The parser, from state `st` on the records `s`, yields exactly the events `evs`, one per
/// call, and then nothing more; the records it leaves unread, if so.
pub open spec fn parses_to(st: ParseState, s: RecordStream, evs: Seq<EventView>) -> Option<
    RecordStream,
>
    decreases evs.len(),
{
    if st is Done {
        if evs.len() == 0 {
            Some(s)
        } else {
            None
        }
    } else if evs.len() == 0 {
        None
    } else {
        match sp_advance(st, s) {
            Ok((ev, rest, st2)) => if ev == evs[0] {
                parses_to(st2, rest, evs.drop_first())
            } else {
                None
            },
            Err(_) => None,
        }
    }
}

/// Whether the parser, in phase `p` before `evs`, has an ENDEL still ahead of it: after a
/// property, or after an element whose properties come next.
spec fn endel_ahead(p: Phase, evs: Seq<EventView>) -> bool {
    p is AfterProperty || (p is AfterElement && evs.len() > 0 && evs[0] is Property)
}

/// The parser's state in phase `p` before `evs`.
spec fn parser_state(p: Phase, evs: Seq<EventView>) -> ParseState {
    match p {
        Phase::Start => ParseState::Start,
        Phase::Library => ParseState::Library,
        Phase::Structure => ParseState::Structure,
        Phase::AfterElement => if endel_ahead(p, evs) {
            ParseState::Properties
        } else {
            ParseState::Structure
        },
        Phase::AfterProperty => ParseState::Properties,
        Phase::Ended => ParseState::Done,
    }
}

/// The records ahead of the parser in phase `p` before `evs`.
spec fn parser_stream(p: Phase, evs: Seq<EventView>, split: bool) -> RecordStream {
    stream_of(events_records(evs, endel_ahead(p, evs), split))
}

proof fn lemma_stream_add(a: Seq<OutRecord>, b: Seq<OutRecord>)
    ensures
        stream_of(a + b) == stream_of(a) + stream_of(b),
{
    assert(stream_of(a + b) =~= stream_of(a) + stream_of(b));
}

/// The stream of a sequence of events: the first event's records, then the rest's.
pub proof fn lemma_events_unfold(evs: Seq<EventView>, owed: bool, split: bool)
    requires
        evs.len() > 0,
    ensures
        stream_of(events_records(evs, owed, split)) == stream_of(event_records(evs[0], owed, split))
            + stream_of(events_records(evs.drop_first(), endel_owed_after(evs[0], owed), split)),
{
    lemma_stream_add(
        event_records(evs[0], owed, split),
        events_records(evs.drop_first(), endel_owed_after(evs[0], owed), split),
    );
}

/// Before an element or a structure's end, an owed ENDEL comes first.
pub proof fn lemma_endel_first(evs: Seq<EventView>, split: bool)
    requires
        evs.len() > 0,
        evs[0] is Element || evs[0] is StructureEnd,
    ensures
        stream_of(events_records(evs, true, split)) == seq![
            Ok::<RecView, RecordErrorView>(rv(RecordType::Endel, BodyView::NoData)),
        ] + stream_of(events_records(evs, false, split)),
{
    let e = evs[0];
    let rest = events_records(evs.drop_first(), endel_owed_after(e, true), split);
    let x = match e {
        EventView::Element(el) => element_records(el, split),
        _ => one(RecordType::EndStr, BodyView::NoData),
    };
    assert(event_records(e, true, split) =~= one(RecordType::Endel, BodyView::NoData) + x);
    assert(event_records(e, false, split) =~= x);
    lemma_stream_split(one(RecordType::Endel, BodyView::NoData), x + rest, Seq::empty());
    assert(events_records(evs, true, split) =~= one(RecordType::Endel, BodyView::NoData) + (x
        + rest));
    assert(stream_of(events_records(evs, true, split)) =~= stream_of(one(RecordType::Endel, BodyView::NoData)) + stream_of(x + rest));
    lemma_one(RecordType::Endel, BodyView::NoData, stream_of(x + rest));
}

/// What the parser has ahead after an element, in a well-formed stream, does not start
/// with XY, and ends the element as the grammar says.
proof fn lemma_after_element(el: ElementView, rest: Seq<EventView>, split: bool)
    requires
        well_formed_from(Phase::AfterElement, rest, split),
    ensures
        next_not(stream_of(events_records(rest, true, split)), RecordType::Xy),
        sp_element_end(el, stream_of(events_records(rest, true, split))) == Ok::<
            _,
            ParseErrorView,
        >(
            (
                EventView::Element(el),
                parser_stream(Phase::AfterElement, rest, split),
                parser_state(Phase::AfterElement, rest),
            ),
        ),
{
    let u = stream_of(events_records(rest, true, split));
    assert(rest.len() > 0);
    let e = rest[0];
    if e is Property {
        lemma_events_unfold(rest, true, split);
        match e {
            EventView::Property { attr, value } => {
                let a = one(RecordType::Propattr, BodyView::TwoByteSignedInt(seq![attr]));
                let v = one(RecordType::Propvalue, BodyView::AsciiString(value));
                lemma_stream_add(a, v);
                let t = stream_of(
                    events_records(rest.drop_first(), endel_owed_after(e, true), split),
                );
                lemma_one(
                    RecordType::Propattr,
                    BodyView::TwoByteSignedInt(seq![attr]),
                    stream_of(v) + t,
                );
                assert(u =~= stream_of(a) + (stream_of(v) + t));
            },
            _ => {},
        }
    } else {
        lemma_endel_first(rest, split);
        lemma_lead(rv(RecordType::Endel, BodyView::NoData), stream_of(events_records(rest, false, split)));
    }
}

/// One step inside a structure, with no ENDEL ahead: an element or the structure's end.
proof fn lemma_structure_step(p: Phase, evs: Seq<EventView>, split: bool)
    requires
        evs.len() > 0,
        in_structure(p),
        evs[0] is Element || evs[0] is StructureEnd,
        well_formed_from(p, evs, split),
    ensures
        ({
            let q = next_phase(p, evs[0]).unwrap();
            sp_structure_item(stream_of(events_records(evs, false, split))) == Ok::<
                _,
                ParseErrorView,
            >(
                (
                    evs[0],
                    parser_stream(q, evs.drop_first(), split),
                    parser_state(q, evs.drop_first()),
                ),
            )
        }),
{
    let e = evs[0];
    let rest = evs.drop_first();
    lemma_events_unfold(evs, false, split);
    match e {
        EventView::Element(el) => {
            assert(event_records(e, false, split) =~= element_records(el, split));
            lemma_after_element(el, rest, split);
            lemma_element(el, split, stream_of(events_records(rest, true, split)));
        },
        _ => {
            lemma_structure_end(split, stream_of(events_records(rest, false, split)));
        },
    }
}

/// One parsing step of a well-formed stream gives its first event and leaves the parser
/// where the rest of the stream begins.
proof fn lemma_step(p: Phase, evs: Seq<EventView>, split: bool)
    requires
        evs.len() > 0,
        well_formed_from(p, evs, split),
    ensures
        !(parser_state(p, evs) is Done),
        ({
            let q = next_phase(p, evs[0]).unwrap();
            sp_advance(parser_state(p, evs), parser_stream(p, evs, split)) == Ok::<
                _,
                ParseErrorView,
            >(
                (
                    evs[0],
                    parser_stream(q, evs.drop_first(), split),
                    parser_state(q, evs.drop_first()),
                ),
            )
        }),
{
    let e = evs[0];
    let rest = evs.drop_first();
    let q = next_phase(p, e).unwrap();
    if p is Start {
        lemma_events_unfold(evs, false, split);
        lemma_library_begin(e, false, split, stream_of(events_records(rest, false, split)));
    } else if p is Library {
        lemma_events_unfold(evs, false, split);
        if e is StructureBegin {
            lemma_structure_begin(e, split, stream_of(events_records(rest, false, split)));
        } else {
            lemma_library_end(split, stream_of(events_records(rest, false, split)));
        }
    } else if e is Property {
        lemma_events_unfold(evs, true, split);
        lemma_property(e, true, split, stream_of(events_records(rest, true, split)));
    } else if p is AfterProperty {
        lemma_endel_first(evs, split);
        lemma_one(RecordType::Endel, BodyView::NoData, stream_of(events_records(evs, false, split)));
        lemma_property_endel(stream_of(events_records(evs, false, split)));
        lemma_structure_step(p, evs, split);
    } else {
        lemma_structure_step(p, evs, split);
    }
}

proof fn lemma_parse_from(p: Phase, evs: Seq<EventView>, split: bool)
    requires
        well_formed_from(p, evs, split),
    ensures
        parses_to(parser_state(p, evs), parser_stream(p, evs, split), evs) == Some(
            Seq::<Result<RecView, RecordErrorView>>::empty(),
        ),
    decreases evs.len(),
{
    if evs.len() == 0 {
        assert(parser_stream(p, evs, split) =~= Seq::<Result<RecView, RecordErrorView>>::empty());
    } else {
        let q = next_phase(p, evs[0]).unwrap();
        lemma_step(p, evs, split);
        lemma_parse_from(q, evs.drop_first(), split);
    }
}

/// The records the writer writes for a well-formed library, with a fresh writer, parse
/// back as the same events, one per call, and then the parser ends with nothing left.
pub proof fn lemma_parse_written_events(evs: Seq<EventView>, split: bool)
    requires
        well_formed(evs, split),
    ensures
        parses_to(ParseState::Start, stream_of(events_records(evs, false, split)), evs) == Some(
            Seq::<Result<RecView, RecordErrorView>>::empty(),
        ),
{
    lemma_parse_from(Phase::Start, evs, split);
}

// ------------------------------------------------------------------------------------------
// Every record of a well-formed stream reads back as itself
// ------------------------------------------------------------------------------------------

/// Bodies within these bounds fit in one record.
proof fn lemma_body_fits(b: BodyView)
    requires
        match b {
            BodyView::NoData => true,
            BodyView::BitArray(v) => v.len() <= 32765,
            BodyView::TwoByteSignedInt(v) => v.len() <= 32765,
            BodyView::FourByteSignedInt(v) => v.len() <= 16382,
            BodyView::FourByteReal(v) => false,
            BodyView::EightByteReal(v) => v.len() <= 2 && forall|i: int|
                0 <= i < v.len() ==> #[trigger] v[i].len() == 8,
            BodyView::AsciiString(s) => str_fits(s),
        },
    ensures
        body_fits(b),
{
    match b {
        BodyView::BitArray(v) => lemma_flat_u16(v, 0),
        BodyView::TwoByteSignedInt(v) => lemma_flat_i16(v, 0),
        BodyView::FourByteSignedInt(v) => lemma_flat_i32(v, 0),
        BodyView::EightByteReal(v) => lemma_flatten_chunks(v, 8, 0),
        _ => {},
    }
}

proof fn lemma_fit_add(a: Seq<OutRecord>, b: Seq<OutRecord>)
    requires
        records_fit(a),
        records_fit(b),
    ensures
        records_fit(a + b),
{
    assert forall|i: int| 0 <= i < (a + b).len() implies body_fits(#[trigger] (a + b)[i].body) by {
        if i < a.len() {
            assert((a + b)[i] == a[i]);
        } else {
            assert((a + b)[i] == b[i - a.len()]);
        }
    }
}

proof fn lemma_fit_i16(t: RecordType, v: i16)
    ensures
        records_fit(one(t, BodyView::TwoByteSignedInt(seq![v]))),
        records_fit(opt_i16(t, Some(v))),
        records_fit(opt_i16(t, None)),
{
    lemma_body_fits(BodyView::TwoByteSignedInt(seq![v]));
}

proof fn lemma_fit_opt_i16(t: RecordType, o: Option<i16>)
    ensures
        records_fit(opt_i16(t, o)),
{
    lemma_body_fits(BodyView::TwoByteSignedInt(seq![o.unwrap()]));
}

proof fn lemma_fit_opt_i32(t: RecordType, o: Option<i32>)
    ensures
        records_fit(opt_i32(t, o)),
{
    lemma_body_fits(BodyView::FourByteSignedInt(seq![o.unwrap()]));
}

proof fn lemma_fit_opt_u16(t: RecordType, o: Option<u16>)
    ensures
        records_fit(opt_u16(t, o)),
{
    lemma_body_fits(BodyView::BitArray(seq![o.unwrap()]));
}

proof fn lemma_fit_opt_str(t: RecordType, o: Option<Seq<u8>>)
    requires
        opt_str_fits(o),
    ensures
        records_fit(opt_str(t, o)),
{
    if o is Some {
        lemma_body_fits(BodyView::AsciiString(o.unwrap()));
    }
}

proof fn lemma_fit_opt_real(t: RecordType, o: Option<Seq<u8>>)
    requires
        opt_real_fits(o),
    ensures
        records_fit(opt_real(t, o)),
{
    if o is Some {
        lemma_body_fits(BodyView::EightByteReal(seq![o.unwrap()]));
    }
}

proof fn lemma_fit_xy(xy: Seq<i32>, split: bool)
    requires
        xy_fits(xy, split),
    ensures
        records_fit(xy_records(xy, split)),
    decreases xy.len(),
{
    let k = xy_chunk() as int;
    if split && xy.len() > k {
        lemma_body_fits(BodyView::FourByteSignedInt(xy.take(k)));
        lemma_fit_xy(xy.skip(k), split);
        lemma_fit_add(
            one(RecordType::Xy, BodyView::FourByteSignedInt(xy.take(k))),
            xy_records(xy.skip(k), split),
        );
    } else {
        lemma_body_fits(BodyView::FourByteSignedInt(xy));
    }
}

proof fn lemma_fit_strans(o: Option<StransView>)
    requires
        strans_fits(o),
    ensures
        records_fit(strans_records(o)),
{
    match o {
        Some(s) => {
            let f = one(RecordType::Strans, BodyView::BitArray(seq![strans_flags(s)]));
            lemma_body_fits(BodyView::BitArray(seq![strans_flags(s)]));
            lemma_fit_opt_real(RecordType::Mag, s.mag);
            lemma_fit_opt_real(RecordType::Angle, s.angle);
            lemma_fit_add(f, opt_real(RecordType::Mag, s.mag));
            lemma_fit_add(f + opt_real(RecordType::Mag, s.mag), opt_real(RecordType::Angle, s.angle));
        },
        None => {},
    }
}

proof fn lemma_fit_ep(elflags: Option<u16>, plex: Option<i32>)
    ensures
        records_fit(elflags_plex_records(elflags, plex)),
{
    lemma_fit_opt_u16(RecordType::Elflags, elflags);
    lemma_fit_opt_i32(RecordType::Plex, plex);
    lemma_fit_add(opt_u16(RecordType::Elflags, elflags), opt_i32(RecordType::Plex, plex));
}

proof fn lemma_fit_element(el: ElementView, split: bool)
    requires
        element_fits(el, split),
    ensures
        records_fit(element_records(el, split)),
{
    let o = one(
        match el {
            ElementView::Boundary { .. } => RecordType::Boundary,
            ElementView::Path { .. } => RecordType::Path,
            ElementView::Sref { .. } => RecordType::Sref,
            ElementView::Aref { .. } => RecordType::Aref,
            ElementView::Text { .. } => RecordType::Text,
            ElementView::Node { .. } => RecordType::Node,
            ElementView::Box { .. } => RecordType::Box,
        },
        BodyView::NoData,
    );
    match el {
        ElementView::Boundary { elflags, plex, layer, datatype, xy } => {
            let ep = elflags_plex_records(elflags, plex);
            let l = one(RecordType::Layer, BodyView::TwoByteSignedInt(seq![layer]));
            let d = one(RecordType::Datatype, BodyView::TwoByteSignedInt(seq![datatype]));
            lemma_fit_ep(elflags, plex);
            lemma_fit_i16(RecordType::Layer, layer);
            lemma_fit_i16(RecordType::Datatype, datatype);
            lemma_fit_xy(xy, split);
            lemma_fit_add(o, ep);
            lemma_fit_add(o + ep, l);
            lemma_fit_add(o + ep + l, d);
            lemma_fit_add(o + ep + l + d, xy_records(xy, split));
        },
        ElementView::Node { elflags, plex, layer, nodetype, xy } => {
            let ep = elflags_plex_records(elflags, plex);
            let l = one(RecordType::Layer, BodyView::TwoByteSignedInt(seq![layer]));
            let d = one(RecordType::Nodetype, BodyView::TwoByteSignedInt(seq![nodetype]));
            lemma_fit_ep(elflags, plex);
            lemma_fit_i16(RecordType::Layer, layer);
            lemma_fit_i16(RecordType::Nodetype, nodetype);
            lemma_fit_xy(xy, split);
            lemma_fit_add(o, ep);
            lemma_fit_add(o + ep, l);
            lemma_fit_add(o + ep + l, d);
            lemma_fit_add(o + ep + l + d, xy_records(xy, split));
        },
        ElementView::Box { elflags, plex, layer, boxtype, xy } => {
            let ep = elflags_plex_records(elflags, plex);
            let l = one(RecordType::Layer, BodyView::TwoByteSignedInt(seq![layer]));
            let d = one(RecordType::BoxType, BodyView::TwoByteSignedInt(seq![boxtype]));
            lemma_fit_ep(elflags, plex);
            lemma_fit_i16(RecordType::Layer, layer);
            lemma_fit_i16(RecordType::BoxType, boxtype);
            lemma_fit_xy(xy, split);
            lemma_fit_add(o, ep);
            lemma_fit_add(o + ep, l);
            lemma_fit_add(o + ep + l, d);
            lemma_fit_add(o + ep + l + d, xy_records(xy, split));
        },
        ElementView::Path {
            elflags,
            plex,
            layer,
            datatype,
            pathtype,
            width,
            bgn_extn,
            end_extn,
            xy,
        } => {
            let ep = elflags_plex_records(elflags, plex);
            let l = one(RecordType::Layer, BodyView::TwoByteSignedInt(seq![layer]));
            let d = one(RecordType::Datatype, BodyView::TwoByteSignedInt(seq![datatype]));
            let pt = opt_i16(RecordType::Pathtype, pathtype);
            let w = opt_i32(RecordType::Width, width);
            let be = opt_i32(RecordType::BgnExtn, bgn_extn);
            let ee = opt_i32(RecordType::EndExtn, end_extn);
            lemma_fit_ep(elflags, plex);
            lemma_fit_i16(RecordType::Layer, layer);
            lemma_fit_i16(RecordType::Datatype, datatype);
            lemma_fit_opt_i16(RecordType::Pathtype, pathtype);
            lemma_fit_opt_i32(RecordType::Width, width);
            lemma_fit_opt_i32(RecordType::BgnExtn, bgn_extn);
            lemma_fit_opt_i32(RecordType::EndExtn, end_extn);
            lemma_fit_xy(xy, split);
            lemma_fit_add(o, ep);
            lemma_fit_add(o + ep, l);
            lemma_fit_add(o + ep + l, d);
            lemma_fit_add(o + ep + l + d, pt);
            lemma_fit_add(o + ep + l + d + pt, w);
            lemma_fit_add(o + ep + l + d + pt + w, be);
            lemma_fit_add(o + ep + l + d + pt + w + be, ee);
            lemma_fit_add(o + ep + l + d + pt + w + be + ee, xy_records(xy, split));
        },
        ElementView::Sref { elflags, plex, sname, strans, xy } => {
            let ep = elflags_plex_records(elflags, plex);
            let n = one(RecordType::Sname, BodyView::AsciiString(sname));
            let st = strans_records(strans);
            lemma_fit_ep(elflags, plex);
            lemma_body_fits(BodyView::AsciiString(sname));
            lemma_fit_strans(strans);
            lemma_fit_xy(xy, split);
            lemma_fit_add(o, ep);
            lemma_fit_add(o + ep, n);
            lemma_fit_add(o + ep + n, st);
            lemma_fit_add(o + ep + n + st, xy_records(xy, split));
        },
        ElementView::Aref { elflags, plex, sname, strans, colrow, xy } => {
            let ep = elflags_plex_records(elflags, plex);
            let n = one(RecordType::Sname, BodyView::AsciiString(sname));
            let st = strans_records(strans);
            let cr = one(RecordType::Colrow, BodyView::TwoByteSignedInt(seq![colrow.0, colrow.1]));
            lemma_fit_ep(elflags, plex);
            lemma_body_fits(BodyView::AsciiString(sname));
            lemma_body_fits(BodyView::TwoByteSignedInt(seq![colrow.0, colrow.1]));
            lemma_fit_strans(strans);
            lemma_fit_xy(xy, split);
            lemma_fit_add(o, ep);
            lemma_fit_add(o + ep, n);
            lemma_fit_add(o + ep + n, st);
            lemma_fit_add(o + ep + n + st, cr);
            lemma_fit_add(o + ep + n + st + cr, xy_records(xy, split));
        },
        ElementView::Text {
            elflags,
            plex,
            layer,
            texttype,
            presentation,
            pathtype,
            width,
            strans,
            xy,
            string,
        } => {
            let ep = elflags_plex_records(elflags, plex);
            let l = one(RecordType::Layer, BodyView::TwoByteSignedInt(seq![layer]));
            let tt = one(RecordType::TextType, BodyView::TwoByteSignedInt(seq![texttype]));
            let pr = opt_u16(RecordType::Presentation, presentation);
            let pt = opt_i16(RecordType::Pathtype, pathtype);
            let w = opt_i32(RecordType::Width, width);
            let st = strans_records(strans);
            let x = xy_records(xy, split);
            let sg = one(RecordType::String, BodyView::AsciiString(string));
            lemma_fit_ep(elflags, plex);
            lemma_fit_i16(RecordType::Layer, layer);
            lemma_fit_i16(RecordType::TextType, texttype);
            lemma_fit_opt_u16(RecordType::Presentation, presentation);
            lemma_fit_opt_i16(RecordType::Pathtype, pathtype);
            lemma_fit_opt_i32(RecordType::Width, width);
            lemma_fit_strans(strans);
            lemma_fit_xy(xy, split);
            lemma_body_fits(BodyView::AsciiString(string));
            lemma_fit_add(o, ep);
            lemma_fit_add(o + ep, l);
            lemma_fit_add(o + ep + l, tt);
            lemma_fit_add(o + ep + l + tt, pr);
            lemma_fit_add(o + ep + l + tt + pr, pt);
            lemma_fit_add(o + ep + l + tt + pr + pt, w);
            lemma_fit_add(o + ep + l + tt + pr + pt + w, st);
            lemma_fit_add(o + ep + l + tt + pr + pt + w + st, x);
            lemma_fit_add(o + ep + l + tt + pr + pt + w + st + x, sg);
        },
    }
}

proof fn lemma_fit_event(e: EventView, owed: bool, split: bool)
    requires
        event_fits(e, split),
    ensures
        records_fit(event_records(e, owed, split)),
{
    let en = endel_records(owed);
    assert(records_fit(en));
    match e {
        EventView::LibraryBegin {
            version,
            timestamps,
            lib_name,
            db_in_user,
            db_in_meters,
            reflibs,
            fonts,
            attrtable,
            generations,
        } => {
            let h = one(RecordType::Header, BodyView::TwoByteSignedInt(seq![version]));
            let b = one(RecordType::BgnLib, BodyView::TwoByteSignedInt(timestamps));
            let n = one(RecordType::LibName, BodyView::AsciiString(lib_name));
            let r = opt_str(RecordType::Reflibs, reflibs);
            let f = opt_str(RecordType::Fonts, fonts);
            let a = opt_str(RecordType::Attrtable, attrtable);
            let g = opt_i16(RecordType::Generations, generations);
            let un = one(
                RecordType::Units,
                BodyView::EightByteReal(seq![db_in_user, db_in_meters]),
            );
            lemma_fit_i16(RecordType::Header, version);
            lemma_body_fits(BodyView::TwoByteSignedInt(timestamps));
            lemma_body_fits(BodyView::AsciiString(lib_name));
            lemma_fit_opt_str(RecordType::Reflibs, reflibs);
            lemma_fit_opt_str(RecordType::Fonts, fonts);
            lemma_fit_opt_str(RecordType::Attrtable, attrtable);
            lemma_fit_opt_i16(RecordType::Generations, generations);
            lemma_body_fits(BodyView::EightByteReal(seq![db_in_user, db_in_meters]));
            lemma_fit_add(h, b);
            lemma_fit_add(h + b, n);
            lemma_fit_add(h + b + n, r);
            lemma_fit_add(h + b + n + r, f);
            lemma_fit_add(h + b + n + r + f, a);
            lemma_fit_add(h + b + n + r + f + a, g);
            lemma_fit_add(h + b + n + r + f + a + g, un);
        },
        EventView::StructureBegin { timestamps, name } => {
            let b = one(RecordType::BgnStr, BodyView::TwoByteSignedInt(timestamps));
            let n = one(RecordType::StrName, BodyView::AsciiString(name));
            lemma_body_fits(BodyView::TwoByteSignedInt(timestamps));
            lemma_body_fits(BodyView::AsciiString(name));
            lemma_fit_add(en, b);
            lemma_fit_add(en + b, n);
        },
        EventView::Element(el) => {
            lemma_fit_element(el, split);
            lemma_fit_add(en, element_records(el, split));
        },
        EventView::Property { attr, value } => {
            lemma_fit_i16(RecordType::Propattr, attr);
            lemma_body_fits(BodyView::AsciiString(value));
            lemma_fit_add(
                one(RecordType::Propattr, BodyView::TwoByteSignedInt(seq![attr])),
                one(RecordType::Propvalue, BodyView::AsciiString(value)),
            );
        },
        EventView::StructureEnd => {
            lemma_fit_add(en, one(RecordType::EndStr, BodyView::NoData));
        },
        EventView::LibraryEnd => {
            lemma_fit_add(en, one(RecordType::EndLib, BodyView::NoData));
        },
    }
}

proof fn lemma_fit_events(p: Phase, evs: Seq<EventView>, owed: bool, split: bool)
    requires
        well_formed_from(p, evs, split),
    ensures
        records_fit(events_records(evs, owed, split)),
    decreases evs.len(),
{
    if evs.len() > 0 {
        let q = next_phase(p, evs[0]).unwrap();
        lemma_fit_event(evs[0], owed, split);
        lemma_fit_events(q, evs.drop_first(), endel_owed_after(evs[0], owed), split);
        lemma_fit_add(
            event_records(evs[0], owed, split),
            events_records(evs.drop_first(), endel_owed_after(evs[0], owed), split),
        );
    }
}

// ------------------------------------------------------------------------------------------
// The laws on bytes
// ------------------------------------------------------------------------------------------

/// The parser is deterministic: from one state and one record stream it yields one event
/// stream.
pub proof fn lemma_parses_to_unique(
    st: ParseState,
    s: RecordStream,
    a: Seq<EventView>,
    b: Seq<EventView>,
)
    requires
        parses_to(st, s, a) is Some,
        parses_to(st, s, b) is Some,
    ensures
        a == b,
    decreases a.len(),
{
    if !(st is Done) && a.len() > 0 {
        match sp_advance(st, s) {
            Ok((ev, rest, st2)) => {
                lemma_parses_to_unique(st2, rest, a.drop_first(), b.drop_first());
                assert(a =~= seq![ev] + a.drop_first());
                assert(b =~= seq![ev] + b.drop_first());
            },
            Err(_) => {},
        }
    }
}

/// Write, then read: the bytes the writer writes for a well-formed library (long
/// coordinate lists split or not) parse back, from the first byte, as the same events, one
/// per call, after which the parser ends, every byte read.
pub proof fn lemma_write_then_parse(evs: Seq<EventView>, split: bool)
    requires
        well_formed(evs, split),
    ensures
        parses_to(
            ParseState::Start,
            spec_records(records_bytes(events_records(evs, false, split)), 0),
            evs,
        ) == Some(Seq::<Result<RecView, RecordErrorView>>::empty()),
{
    let rs = events_records(evs, false, split);
    let data = records_bytes(rs);
    lemma_fit_events(Phase::Start, evs, false, split);
    assert(data.subrange(0, data.len() as int) =~= data);
    lemma_read_written_records(data, 0, rs);
    lemma_parse_written_events(evs, split);
}

/// Read, then write: a file that the writer wrote for a well-formed library parses to
/// exactly those events, and writing whatever it parses to, the same way, gives the file's
/// bytes again.
pub proof fn lemma_parse_then_write(
    data: Seq<u8>,
    written: Seq<EventView>,
    parsed: Seq<EventView>,
    split: bool,
)
    requires
        well_formed(written, split),
        data == records_bytes(events_records(written, false, split)),
        parses_to(ParseState::Start, spec_records(data, 0), parsed) is Some,
    ensures
        parsed == written,
        records_bytes(events_records(parsed, false, split)) == data,
{
    lemma_write_then_parse(written, split);
    lemma_parses_to_unique(ParseState::Start, spec_records(data, 0), parsed, written);
}

// ------------------------------------------------------------------------------------------
// Splitting long coordinate lists
// ------------------------------------------------------------------------------------------

/// The coordinates of an element.
pub open spec fn element_xy(el: ElementView) -> Seq<i32> {
    match el {
        ElementView::Boundary { xy, .. } => xy,
        ElementView::Path { xy, .. } => xy,
        ElementView::Sref { xy, .. } => xy,
        ElementView::Aref { xy, .. } => xy,
        ElementView::Text { xy, .. } => xy,
        ElementView::Node { xy, .. } => xy,
        ElementView::Box { xy, .. } => xy,
    }
}

/// Splitting long coordinate lists changes nothing for elements whose coordinates fit in
/// one XY record.
pub proof fn lemma_split_leaves_short_lists(evs: Seq<EventView>, owed: bool)
    requires
        forall|i: int|
            0 <= i < evs.len() ==> (#[trigger] evs[i] matches EventView::Element(el)
                ==> element_xy(el).len() <= xy_chunk()),
    ensures
        events_records(evs, owed, true) == events_records(evs, owed, false),
    decreases evs.len(),
{
    if evs.len() > 0 {
        let e = evs[0];
        let tail = evs.drop_first();
        assert forall|i: int|
            0 <= i < tail.len() implies (#[trigger] tail[i] matches EventView::Element(el)
                ==> element_xy(el).len() <= xy_chunk()) by {
            assert(tail[i] == evs[i + 1]);
        }
        lemma_split_leaves_short_lists(tail, endel_owed_after(e, owed));
        match e {
            EventView::Element(el) => {
                assert(xy_records(element_xy(el), true) == xy_records(element_xy(el), false));
                assert(element_records(el, true) == element_records(el, false));
            },
            _ => {},
        }
        assert(event_records(e, owed, true) == event_records(e, owed, false));
    }
}

/// An owed ENDEL is written as its four header bytes; once it is written none is owed, so
/// flushing again writes nothing.
pub proof fn lemma_endel_flush()
    ensures
        records_bytes(endel_records(true)) == seq![0u8, 4u8, 0x11u8, 0u8],
        records_bytes(endel_records(false)) == Seq::<u8>::empty(),
{
    lemma_records_bytes_one(OutRecord { record_type: RecordType::Endel, body: BodyView::NoData });
    crate::bytes::lemma_be_bytes_len(4, 2);
    assert(crate::bytes::be_bytes(4, 2) =~= seq![0u8, 4u8]) by {
        reveal_with_fuel(crate::bytes::be_bytes, 3);
    }
    assert(RecordType::Endel.spec_code() == 0x11);
    assert(crate::types::DataType::NoData.spec_code() == 0);
    assert(records_bytes(endel_records(true)) =~= seq![0u8, 4u8, 0x11u8, 0u8]);
    assert(records_bytes(endel_records(false)) =~= Seq::<u8>::empty());
}

} // verus!
