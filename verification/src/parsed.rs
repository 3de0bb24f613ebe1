//! What the parser reads from any bytes is a well-formed event stream: written back, with
//! long coordinate lists split, it parses again to the same events.
use crate::events::{ElementView, EventView};
use crate::parser::{
    body_i16, body_i16s, body_str, sp_aref, sp_boundary, sp_colrow,
    sp_elflags_plex, sp_expect, sp_finish, sp_gds_box, sp_library_begin, sp_library_item,
    sp_library_options, sp_more_xy, sp_next, sp_node, sp_opt_i16, sp_opt_i32, sp_opt_real,
    sp_opt_u16, sp_path, sp_property, sp_req_i16, sp_req_str, sp_sref, sp_strans,
    sp_structure_item, sp_text, sp_try, sp_xy, sp_advance, ParseState,
    RecordStream,
};
use crate::reader::{
    chunk, lemma_records_step, spec_decode_body, spec_read_record, spec_records, trim_nul,
    BodyView, RecView,
};
use crate::types::{DataType, RecordHeader, RecordType};
use crate::wellformed::{
    event_fits, in_structure, lemma_write_then_parse, next_phase, opt_real_fits, parses_to,
    real_fits, stamps_fit, strans_fits, well_formed, well_formed_from, Phase,
};
use crate::roundtrip::reads_back;
use crate::writer::{events_records, records_bytes};
use vstd::prelude::*;
use vstd::utf8::{
    is_char_boundary_iff_not_is_continuation_byte, is_continuation_byte,
    valid_utf8, valid_utf8_split,
};

verus! {

// ------------------------------------------------------------------------------------------
// What the reader gives
// ------------------------------------------------------------------------------------------

/// A string as the reader gives it: UTF-8, and at most the 65531 bytes that one record's
/// body holds.
pub open spec fn str_ok(s: Seq<u8>) -> bool {
    valid_utf8(s) && s.len() <= 65531
}

/// A body as the reader gives it: at most one record's worth of two- or four-byte values,
/// reals of eight bytes each, strings as above.
pub open spec fn body_ok(b: BodyView) -> bool {
    match b {
        BodyView::TwoByteSignedInt(v) => v.len() <= 32765,
        BodyView::FourByteSignedInt(v) => v.len() <= 16382,
        BodyView::EightByteReal(v) => forall|i: int| 0 <= i < v.len() ==> #[trigger] v[i].len() == 8,
        BodyView::AsciiString(s) => str_ok(s),
        _ => true,
    }
}

/// Every record of the stream is as the reader gives it.
pub open spec fn stream_ok(s: RecordStream) -> bool {
    forall|i: int| 0 <= i < s.len() && #[trigger] s[i] is Ok ==> body_ok(s[i]->Ok_0.body)
}

proof fn lemma_trim_nul_ok(s: Seq<u8>)
    requires
        valid_utf8(s),
    ensures
        valid_utf8(trim_nul(s)),
        trim_nul(s).len() <= s.len(),
{
    if s.len() > 0 && s.last() == 0 {
        let n = s.len() - 1;
        assert(!is_continuation_byte(s[n]));
        is_char_boundary_iff_not_is_continuation_byte(s, n);
        valid_utf8_split(s, n);
        assert(s.subrange(0, n) =~= s.drop_last());
    }
}

proof fn lemma_decode_ok(dt: DataType, bytes: Seq<u8>)
    requires
        bytes.len() <= 65531,
        spec_decode_body(dt, bytes) is Some,
    ensures
        body_ok(spec_decode_body(dt, bytes).unwrap()),
{
    match dt {
        DataType::EightByteReal => {
            let v = Seq::new(bytes.len() / 8, |i: int| chunk(bytes, 8, i));
            assert forall|i: int| 0 <= i < v.len() implies #[trigger] v[i].len() == 8 by {
                assert(8 * i + 8 <= bytes.len()) by (nonlinear_arith)
                    requires
                        0 <= i < bytes.len() / 8,
                ;
            }
        },
        DataType::AsciiString => lemma_trim_nul_ok(bytes),
        _ => {},
    }
}

/// Every record the reader reads from any bytes is as the reader gives it.
pub proof fn lemma_records_ok(input: Seq<u8>, off: int)
    requires
        0 <= off <= input.len(),
    ensures
        stream_ok(spec_records(input, off)),
    decreases input.len() - off,
{
    lemma_records_step(input, off);
    match spec_read_record(input, off) {
        Some((Ok(r), next)) => {
            let h = RecordHeader::spec_parse(input.subrange(off, input.len() as int)).unwrap();
            lemma_decode_ok(h.data_type, input.subrange(off + 4, off + h.length as int));
            lemma_records_ok(input, next);
            let s = spec_records(input, off);
            let t = spec_records(input, next);
            assert forall|i: int| 0 <= i < s.len() && #[trigger] s[i] is Ok implies body_ok(
                s[i]->Ok_0.body,
            ) by {
                if i > 0 {
                    assert(s[i] == t[i - 1]);
                }
            }
        },
        _ => {},
    }
}

// ------------------------------------------------------------------------------------------
// The grammar's steps keep to what the reader gives
// ------------------------------------------------------------------------------------------

proof fn lemma_drop_ok(s: RecordStream)
    requires
        stream_ok(s),
        s.len() > 0,
    ensures
        stream_ok(s.drop_first()),
        s[0] is Ok ==> body_ok(s[0]->Ok_0.body),
{
    let t = s.drop_first();
    assert forall|i: int| 0 <= i < t.len() && #[trigger] t[i] is Ok implies body_ok(
        t[i]->Ok_0.body,
    ) by {
        assert(t[i] == s[i + 1]);
    }
}

pub broadcast proof fn lemma_next_ok(s: RecordStream, context: &'static str)
    requires
        stream_ok(s),
    ensures
        #[trigger] sp_next(s, context) matches Ok((r, rest)) ==> body_ok(r.body) && stream_ok(
            rest,
        ),
{
    if s.len() > 0 {
        lemma_drop_ok(s);
    }
}

pub broadcast proof fn lemma_expect_ok(s: RecordStream, t: RecordType, context: &'static str)
    requires
        stream_ok(s),
    ensures
        #[trigger] sp_expect(s, t, context) matches Ok((r, rest)) ==> body_ok(r.body)
            && stream_ok(rest),
{
    lemma_next_ok(s, context);
}

pub broadcast proof fn lemma_try_ok(s: RecordStream, t: RecordType)
    requires
        stream_ok(s),
    ensures
        #[trigger] sp_try(s, t) matches Ok((o, rest)) ==> stream_ok(rest) && (o matches Some(
            r,
        ) ==> body_ok(r.body)),
{
    if s.len() > 0 {
        lemma_drop_ok(s);
    }
}

pub broadcast proof fn lemma_req_i16_ok(s: RecordStream, t: RecordType, context: &'static str)
    requires
        stream_ok(s),
    ensures
        #[trigger] sp_req_i16(s, t, context) matches Ok((_, rest)) ==> stream_ok(rest),
{
    lemma_expect_ok(s, t, context);
}

pub broadcast proof fn lemma_req_str_ok(s: RecordStream, t: RecordType, context: &'static str)
    requires
        stream_ok(s),
    ensures
        #[trigger] sp_req_str(s, t, context) matches Ok((v, rest)) ==> str_ok(v) && stream_ok(
            rest,
        ),
{
    lemma_expect_ok(s, t, context);
}

pub broadcast proof fn lemma_opt_i16_ok(s: RecordStream, t: RecordType)
    requires
        stream_ok(s),
    ensures
        #[trigger] sp_opt_i16(s, t) matches Ok((_, rest)) ==> stream_ok(rest),
{
    lemma_try_ok(s, t);
}

pub broadcast proof fn lemma_opt_i32_ok(s: RecordStream, t: RecordType)
    requires
        stream_ok(s),
    ensures
        #[trigger] sp_opt_i32(s, t) matches Ok((_, rest)) ==> stream_ok(rest),
{
    lemma_try_ok(s, t);
}

pub broadcast proof fn lemma_opt_u16_ok(s: RecordStream, t: RecordType)
    requires
        stream_ok(s),
    ensures
        #[trigger] sp_opt_u16(s, t) matches Ok((_, rest)) ==> stream_ok(rest),
{
    lemma_try_ok(s, t);
}

pub broadcast proof fn lemma_opt_real_ok(s: RecordStream, t: RecordType)
    requires
        stream_ok(s),
    ensures
        #[trigger] sp_opt_real(s, t) matches Ok((v, rest)) ==> opt_real_fits(v) && stream_ok(
            rest,
        ),
{
    lemma_try_ok(s, t);
}

pub broadcast proof fn lemma_elflags_plex_ok(s: RecordStream)
    requires
        stream_ok(s),
    ensures
        #[trigger] sp_elflags_plex(s) matches Ok((_, rest)) ==> stream_ok(rest),
{
    lemma_opt_u16_ok(s, RecordType::Elflags);
    if sp_opt_u16(s, RecordType::Elflags) is Ok {
        lemma_opt_i32_ok(sp_opt_u16(s, RecordType::Elflags)->Ok_0.1, RecordType::Plex);
    }
}

pub broadcast proof fn lemma_strans_ok(s: RecordStream)
    requires
        stream_ok(s),
    ensures
        #[trigger] sp_strans(s) matches Ok((v, rest)) ==> strans_fits(v) && stream_ok(rest),
{
    lemma_try_ok(s, RecordType::Strans);
    match sp_try(s, RecordType::Strans) {
        Ok((Some(_), s1)) => {
            lemma_opt_real_ok(s1, RecordType::Mag);
            match sp_opt_real(s1, RecordType::Mag) {
                Ok((_, s2)) => lemma_opt_real_ok(s2, RecordType::Angle),
                Err(_) => {},
            }
        },
        _ => {},
    }
}

pub broadcast proof fn lemma_more_xy_ok(s: RecordStream, acc: Seq<i32>)
    requires
        stream_ok(s),
    ensures
        #[trigger] sp_more_xy(s, acc) matches Ok((_, rest)) ==> stream_ok(rest),
    decreases s.len(),
{
    if s.len() > 0 {
        lemma_drop_ok(s);
        if s[0] is Ok && s[0]->Ok_0.header.record_type == RecordType::Xy {
            match crate::parser::body_i32s(s[0]->Ok_0.body, RecordType::Xy) {
                Ok(v) => lemma_more_xy_ok(s.drop_first(), acc + v),
                Err(_) => {},
            }
        }
    }
}

pub broadcast proof fn lemma_xy_ok(s: RecordStream, context: &'static str)
    requires
        stream_ok(s),
    ensures
        #[trigger] sp_xy(s, context) matches Ok((_, rest)) ==> stream_ok(rest),
{
    lemma_expect_ok(s, RecordType::Xy, context);
    match sp_expect(s, RecordType::Xy, context) {
        Ok((r, rest)) => match crate::parser::body_i32s(r.body, RecordType::Xy) {
            Ok(v) => lemma_more_xy_ok(rest, v),
            Err(_) => {},
        },
        Err(_) => {},
    }
}

pub broadcast proof fn lemma_colrow_ok(s: RecordStream)
    requires
        stream_ok(s),
    ensures
        #[trigger] sp_colrow(s) matches Ok((_, rest)) ==> stream_ok(rest),
{
    lemma_expect_ok(s, RecordType::Colrow, "Aref");
}

pub broadcast proof fn lemma_finish_ok(s: RecordStream)
    requires
        stream_ok(s),
    ensures
        #[trigger] sp_finish(s) matches Ok((rest, st)) ==> stream_ok(rest) && (st is Structure
            || st is Properties),
{
    lemma_next_ok(s, "element end");
}

// ------------------------------------------------------------------------------------------
// Events as the parser gives them
// ------------------------------------------------------------------------------------------

/// An optional string as the reader gives it.
pub open spec fn opt_str_ok(o: Option<Seq<u8>>) -> bool {
    match o {
        Some(s) => str_ok(s),
        None => true,
    }
}

/// An element as the parser gives it: strings as the reader gives them, reals of eight
/// bytes.
pub open spec fn element_read_ok(e: ElementView) -> bool {
    match e {
        ElementView::Sref { sname, strans, .. } => str_ok(sname) && strans_fits(strans),
        ElementView::Aref { sname, strans, .. } => str_ok(sname) && strans_fits(strans),
        ElementView::Text { strans, string, .. } => strans_fits(strans) && str_ok(string),
        _ => true,
    }
}

/// An event as the parser gives it.
pub open spec fn event_read_ok(e: EventView) -> bool {
    match e {
        EventView::LibraryBegin {
            timestamps,
            lib_name,
            db_in_user,
            db_in_meters,
            reflibs,
            fonts,
            attrtable,
            ..
        } => stamps_fit(timestamps) && str_ok(lib_name) && real_fits(db_in_user) && real_fits(
            db_in_meters,
        ) && opt_str_ok(reflibs) && opt_str_ok(fonts) && opt_str_ok(attrtable),
        EventView::StructureBegin { timestamps, name } => stamps_fit(timestamps) && str_ok(name),
        EventView::Element(el) => element_read_ok(el),
        EventView::Property { value, .. } => str_ok(value),
        _ => true,
    }
}

/// The outcome of parsing an element after its opening record, as the parser gives it.
pub open spec fn element_step_ok(r: crate::parser::Stepped) -> bool {
    r matches Ok((ev, rest, st)) ==> ev is Element && element_read_ok(ev->Element_0) && stream_ok(
        rest,
    ) && (st is Structure || st is Properties)
}

proof fn lemma_boundary_ok(s: RecordStream)
    requires
        stream_ok(s),
    ensures
        element_step_ok(sp_boundary(s)),
{
    reveal(sp_boundary);
    broadcast use lemma_next_ok, lemma_expect_ok, lemma_try_ok, lemma_req_i16_ok, lemma_req_str_ok,
        lemma_opt_i16_ok, lemma_opt_i32_ok, lemma_opt_u16_ok, lemma_opt_real_ok,
        lemma_elflags_plex_ok, lemma_strans_ok, lemma_xy_ok, lemma_colrow_ok, lemma_finish_ok;

}

proof fn lemma_path_ok(s: RecordStream)
    requires
        stream_ok(s),
    ensures
        element_step_ok(sp_path(s)),
{
    reveal(sp_path);
    broadcast use lemma_next_ok, lemma_expect_ok, lemma_try_ok, lemma_req_i16_ok, lemma_req_str_ok,
        lemma_opt_i16_ok, lemma_opt_i32_ok, lemma_opt_u16_ok, lemma_opt_real_ok,
        lemma_elflags_plex_ok, lemma_strans_ok, lemma_xy_ok, lemma_colrow_ok, lemma_finish_ok;

}

proof fn lemma_sref_ok(s: RecordStream)
    requires
        stream_ok(s),
    ensures
        element_step_ok(sp_sref(s)),
{
    reveal(sp_sref);
    broadcast use lemma_next_ok, lemma_expect_ok, lemma_try_ok, lemma_req_i16_ok, lemma_req_str_ok,
        lemma_opt_i16_ok, lemma_opt_i32_ok, lemma_opt_u16_ok, lemma_opt_real_ok,
        lemma_elflags_plex_ok, lemma_strans_ok, lemma_xy_ok, lemma_colrow_ok, lemma_finish_ok;

}

proof fn lemma_aref_ok(s: RecordStream)
    requires
        stream_ok(s),
    ensures
        element_step_ok(sp_aref(s)),
{
    reveal(sp_aref);
    broadcast use lemma_next_ok, lemma_expect_ok, lemma_try_ok, lemma_req_i16_ok, lemma_req_str_ok,
        lemma_opt_i16_ok, lemma_opt_i32_ok, lemma_opt_u16_ok, lemma_opt_real_ok,
        lemma_elflags_plex_ok, lemma_strans_ok, lemma_xy_ok, lemma_colrow_ok, lemma_finish_ok;

}

proof fn lemma_text_ok(s: RecordStream)
    requires
        stream_ok(s),
    ensures
        element_step_ok(sp_text(s)),
{
    reveal(sp_text);
    broadcast use lemma_next_ok, lemma_expect_ok, lemma_try_ok, lemma_req_i16_ok, lemma_req_str_ok,
        lemma_opt_i16_ok, lemma_opt_i32_ok, lemma_opt_u16_ok, lemma_opt_real_ok,
        lemma_elflags_plex_ok, lemma_strans_ok, lemma_xy_ok, lemma_colrow_ok, lemma_finish_ok;

}

proof fn lemma_node_ok(s: RecordStream)
    requires
        stream_ok(s),
    ensures
        element_step_ok(sp_node(s)),
{
    reveal(sp_node);
    broadcast use lemma_next_ok, lemma_expect_ok, lemma_try_ok, lemma_req_i16_ok, lemma_req_str_ok,
        lemma_opt_i16_ok, lemma_opt_i32_ok, lemma_opt_u16_ok, lemma_opt_real_ok,
        lemma_elflags_plex_ok, lemma_strans_ok, lemma_xy_ok, lemma_colrow_ok, lemma_finish_ok;

}

proof fn lemma_gds_box_ok(s: RecordStream)
    requires
        stream_ok(s),
    ensures
        element_step_ok(sp_gds_box(s)),
{
    reveal(sp_gds_box);
    broadcast use lemma_next_ok, lemma_expect_ok, lemma_try_ok, lemma_req_i16_ok, lemma_req_str_ok,
        lemma_opt_i16_ok, lemma_opt_i32_ok, lemma_opt_u16_ok, lemma_opt_real_ok,
        lemma_elflags_plex_ok, lemma_strans_ok, lemma_xy_ok, lemma_colrow_ok, lemma_finish_ok;

}

/// The outcome of a step inside a structure, as the parser gives it: an element, or the
/// structure's end.
pub open spec fn structure_step_ok(r: crate::parser::Stepped) -> bool {
    r matches Ok((ev, rest, st)) ==> event_read_ok(ev) && stream_ok(rest) && ((ev is Element && (
    st is Structure || st is Properties)) || (ev is StructureEnd && st is Library))
}

/// A step inside a structure, on records as the reader gives them, gives an element or the
/// structure's end.
pub proof fn lemma_structure_item_ok(s: RecordStream)
    requires
        stream_ok(s),
    ensures
        structure_step_ok(sp_structure_item(s)),
{
    lemma_next_ok(s, "structure");
    match sp_next(s, "structure") {
        Ok((_, rest)) => {
            lemma_boundary_ok(rest);
            lemma_path_ok(rest);
            lemma_sref_ok(rest);
            lemma_aref_ok(rest);
            lemma_text_ok(rest);
            lemma_node_ok(rest);
            lemma_gds_box_ok(rest);
        },
        Err(_) => {},
    }
}

proof fn lemma_property_ok(s: RecordStream)
    requires
        stream_ok(s),
    ensures
        sp_property(s) matches Ok((ev, rest, st)) ==> event_read_ok(ev) && stream_ok(rest) && (
        (ev is Property && st is Properties) || structure_step_ok(sp_property(s))),
{
    lemma_next_ok(s, "properties");
    match sp_next(s, "properties") {
        Ok((_, rest)) => {
            lemma_req_str_ok(rest, RecordType::Propvalue, "property value");
            lemma_structure_item_ok(rest);
        },
        Err(_) => {},
    }
}

proof fn lemma_library_item_ok(s: RecordStream)
    requires
        stream_ok(s),
    ensures
        sp_library_item(s) matches Ok((ev, rest, st)) ==> event_read_ok(ev) && stream_ok(rest) && (
        (ev is StructureBegin && st is Structure) || (ev is LibraryEnd && st is Done)),
{
    lemma_next_ok(s, "library");
    match sp_next(s, "library") {
        Ok((_, rest)) => {
            lemma_req_str_ok(rest, RecordType::StrName, "structure begin");
        },
        Err(_) => {},
    }
}

proof fn lemma_library_options_ok(
    s: RecordStream,
    version: i16,
    timestamps: Seq<i16>,
    lib_name: Seq<u8>,
    reflibs: Option<Seq<u8>>,
    fonts: Option<Seq<u8>>,
    attrtable: Option<Seq<u8>>,
    generations: Option<i16>,
)
    requires
        stream_ok(s),
        stamps_fit(timestamps),
        str_ok(lib_name),
        opt_str_ok(reflibs),
        opt_str_ok(fonts),
        opt_str_ok(attrtable),
    ensures
        sp_library_options(
            s,
            version,
            timestamps,
            lib_name,
            reflibs,
            fonts,
            attrtable,
            generations,
        ) matches Ok((ev, rest, st)) ==> event_read_ok(ev) && stream_ok(rest)
            && ev is LibraryBegin && st is Library,
    decreases s.len(),
{
    if s.len() > 0 {
        lemma_drop_ok(s);
        match s[0] {
            Ok(r) => {
                let rest = s.drop_first();
                match body_str(r.body, r.header.record_type) {
                    Ok(v) => {
                        lemma_library_options_ok(
                            rest,
                            version,
                            timestamps,
                            lib_name,
                            Some(v),
                            fonts,
                            attrtable,
                            generations,
                        );
                        lemma_library_options_ok(
                            rest,
                            version,
                            timestamps,
                            lib_name,
                            reflibs,
                            Some(v),
                            attrtable,
                            generations,
                        );
                        lemma_library_options_ok(
                            rest,
                            version,
                            timestamps,
                            lib_name,
                            reflibs,
                            fonts,
                            Some(v),
                            generations,
                        );
                    },
                    Err(_) => {},
                }
                match body_i16(r.body, RecordType::Generations) {
                    Ok(v) => lemma_library_options_ok(
                        rest,
                        version,
                        timestamps,
                        lib_name,
                        reflibs,
                        fonts,
                        attrtable,
                        Some(v),
                    ),
                    Err(_) => {},
                }
                lemma_library_options_ok(
                    rest,
                    version,
                    timestamps,
                    lib_name,
                    reflibs,
                    fonts,
                    attrtable,
                    generations,
                );
            },
            Err(_) => {},
        }
    }
}

proof fn lemma_library_begin_ok(s: RecordStream)
    requires
        stream_ok(s),
    ensures
        sp_library_begin(s) matches Ok((ev, rest, st)) ==> event_read_ok(ev) && stream_ok(rest)
            && ev is LibraryBegin && st is Library,
{
    lemma_req_i16_ok(s, RecordType::Header, "library begin");
    match sp_req_i16(s, RecordType::Header, "library begin") {
        Ok((version, s1)) => {
            lemma_expect_ok(s1, RecordType::BgnLib, "library begin");
            match sp_expect(s1, RecordType::BgnLib, "library begin") {
                Ok((bgnlib, s2)) => match body_i16s(bgnlib.body, RecordType::BgnLib) {
                    Ok(timestamps) => {
                        lemma_req_str_ok(s2, RecordType::LibName, "library begin");
                        match sp_req_str(s2, RecordType::LibName, "library begin") {
                            Ok((lib_name, s3)) => lemma_library_options_ok(
                                s3,
                                version,
                                timestamps,
                                lib_name,
                                None,
                                None,
                                None,
                                None,
                            ),
                            Err(_) => {},
                        }
                    },
                    Err(_) => {},
                },
                Err(_) => {},
            }
        },
        Err(_) => {},
    }
}

// ------------------------------------------------------------------------------------------
// The parser's events follow the grammar
// ------------------------------------------------------------------------------------------

/// A string that written back reads back as itself: at most 65530 bytes (so that, padded
/// to an even length, it fits in one record), and not of even length ending in a null
/// byte.
pub open spec fn string_rewrites(s: Seq<u8>) -> bool {
    s.len() <= 65530 && reads_back(s)
}

/// Every string of an event, written back, reads back as itself.
pub open spec fn strings_fit(e: EventView) -> bool {
    match e {
        EventView::LibraryBegin { lib_name, reflibs, fonts, attrtable, .. } => string_rewrites(
            lib_name,
        ) && (reflibs matches Some(r) ==> string_rewrites(r)) && (fonts matches Some(f)
            ==> string_rewrites(f)) && (attrtable matches Some(a) ==> string_rewrites(a)),
        EventView::StructureBegin { name, .. } => string_rewrites(name),
        EventView::Element(ElementView::Sref { sname, .. }) => string_rewrites(sname),
        EventView::Element(ElementView::Aref { sname, .. }) => string_rewrites(sname),
        EventView::Element(ElementView::Text { string, .. }) => string_rewrites(string),
        EventView::Property { value, .. } => string_rewrites(value),
        _ => true,
    }
}

/// The phases of the grammar that a parser state stands for.
pub open spec fn phase_matches(p: Phase, st: ParseState) -> bool {
    match st {
        ParseState::Start => p is Start,
        ParseState::Library => p is Library,
        ParseState::Structure => in_structure(p),
        ParseState::Properties => p is AfterElement || p is AfterProperty,
        ParseState::Done => p is Ended,
    }
}

proof fn lemma_read_fits(e: EventView)
    requires
        event_read_ok(e),
        strings_fit(e),
    ensures
        event_fits(e, true),
{
}

/// One step of the parser, as the parser gives it, is allowed by the grammar in a phase
/// that its state stands for, and leads to a phase that its next state stands for.
proof fn lemma_step_follows_grammar(p: Phase, st: ParseState, s: RecordStream)
    requires
        phase_matches(p, st),
        !(st is Done),
        stream_ok(s),
    ensures
        sp_advance(st, s) matches Ok((ev, rest, st2)) ==> event_read_ok(ev) && stream_ok(rest)
            && next_phase(p, ev) is Some && phase_matches(next_phase(p, ev).unwrap(), st2),
{
    match st {
        ParseState::Start => lemma_library_begin_ok(s),
        ParseState::Library => lemma_library_item_ok(s),
        ParseState::Structure => lemma_structure_item_ok(s),
        ParseState::Properties => lemma_property_ok(s),
        ParseState::Done => {},
    }
}

proof fn lemma_parsed_well_formed_from(
    p: Phase,
    st: ParseState,
    s: RecordStream,
    evs: Seq<EventView>,
)
    requires
        phase_matches(p, st),
        stream_ok(s),
        parses_to(st, s, evs) is Some,
        forall|i: int| 0 <= i < evs.len() ==> strings_fit(#[trigger] evs[i]),
    ensures
        well_formed_from(p, evs, true),
    decreases evs.len(),
{
    if !(st is Done) && evs.len() > 0 {
        lemma_step_follows_grammar(p, st, s);
        match sp_advance(st, s) {
            Ok((ev, rest, st2)) => {
                assert(strings_fit(evs[0]));
                lemma_read_fits(ev);
                let q = next_phase(p, ev).unwrap();
                let tail = evs.drop_first();
                assert forall|i: int| 0 <= i < tail.len() implies strings_fit(#[trigger] tail[i]) by {
                    assert(tail[i] == evs[i + 1]);
                }
                lemma_parsed_well_formed_from(q, st2, rest, tail);
            },
            Err(_) => {},
        }
    }
}

/// The events that any bytes parse to, up to the library's end, form a well-formed library
/// (with long coordinate lists split), when each of their strings, written back, reads
/// back as itself.
pub proof fn lemma_parsed_is_well_formed(data: Seq<u8>, evs: Seq<EventView>)
    requires
        parses_to(ParseState::Start, spec_records(data, 0), evs) is Some,
        forall|i: int| 0 <= i < evs.len() ==> strings_fit(#[trigger] evs[i]),
    ensures
        well_formed(evs, true),
{
    lemma_records_ok(data, 0);
    lemma_parsed_well_formed_from(Phase::Start, ParseState::Start, spec_records(data, 0), evs);
}

/// Read, write, read: the events that any bytes parse to, up to the library's end, written
/// back with long coordinate lists split, parse again to the same events, when each of
/// their strings, written back, reads back as itself.
pub proof fn lemma_parse_write_parse(data: Seq<u8>, evs: Seq<EventView>)
    requires
        parses_to(ParseState::Start, spec_records(data, 0), evs) is Some,
        forall|i: int| 0 <= i < evs.len() ==> strings_fit(#[trigger] evs[i]),
    ensures
        parses_to(
            ParseState::Start,
            spec_records(records_bytes(events_records(evs, false, true)), 0),
            evs,
        ) == Some(Seq::<Result<RecView, crate::reader::RecordErrorView>>::empty()),
{
    lemma_parsed_is_well_formed(data, evs);
    lemma_write_then_parse(evs, true);
}

// ------------------------------------------------------------------------------------------
// Every run of the parser follows the grammar
// ------------------------------------------------------------------------------------------

/// The parser, from state `st` on the records `s`, yields the events `evs`, one per call of
/// `next`, none of them an error; the state and the records it is left with, if so.
pub open spec fn yields(st: ParseState, s: RecordStream, evs: Seq<EventView>) -> Option<
    (ParseState, RecordStream),
>
    decreases evs.len(),
{
    if evs.len() == 0 {
        Some((st, s))
    } else if st is Done {
        None
    } else {
        match sp_advance(st, s) {
            Ok((ev, rest, st2)) => if ev == evs[0] {
                yields(st2, rest, evs.drop_first())
            } else {
                None
            },
            Err(_) => None,
        }
    }
}

/// The events, from phase `p`, are each allowed by the grammar where they stand: a prefix
/// of a library.
pub open spec fn follows_grammar(p: Phase, evs: Seq<EventView>) -> bool
    decreases evs.len(),
{
    evs.len() == 0 || match next_phase(p, evs[0]) {
        Some(q) => follows_grammar(q, evs.drop_first()),
        None => false,
    }
}

/// The phase after the events, from phase `p`.
pub open spec fn phase_after(p: Phase, evs: Seq<EventView>) -> Phase
    decreases evs.len(),
{
    if evs.len() == 0 {
        p
    } else {
        match next_phase(p, evs[0]) {
            Some(q) => phase_after(q, evs.drop_first()),
            None => p,
        }
    }
}

proof fn lemma_yields_follow_grammar(
    p: Phase,
    st: ParseState,
    s: RecordStream,
    evs: Seq<EventView>,
)
    requires
        phase_matches(p, st),
        stream_ok(s),
        yields(st, s, evs) is Some,
    ensures
        follows_grammar(p, evs),
        phase_matches(phase_after(p, evs), yields(st, s, evs).unwrap().0),
    decreases evs.len(),
{
    if evs.len() > 0 {
        lemma_step_follows_grammar(p, st, s);
        match sp_advance(st, s) {
            Ok((ev, rest, st2)) => {
                lemma_yields_follow_grammar(next_phase(p, ev).unwrap(), st2, rest, evs.drop_first());
            },
            Err(_) => {},
        }
    }
}

/// Whatever the bytes, the events the parser yields before its first error or its end
/// follow the grammar: the library header first, properties only right after an element
/// or a property, the library's end last; and the parser's state stands for the phase the
/// events reach, so that after the library's end it yields nothing more.
pub proof fn lemma_parser_follows_grammar(data: Seq<u8>, evs: Seq<EventView>)
    requires
        yields(ParseState::Start, spec_records(data, 0), evs) is Some,
    ensures
        follows_grammar(Phase::Start, evs),
        phase_matches(
            phase_after(Phase::Start, evs),
            yields(ParseState::Start, spec_records(data, 0), evs).unwrap().0,
        ),
{
    lemma_records_ok(data, 0);
    lemma_yields_follow_grammar(Phase::Start, ParseState::Start, spec_records(data, 0), evs);
}

} // verus!
